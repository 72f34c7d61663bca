//! Language detection.

use lingua::{Language, LanguageDetector, LanguageDetectorBuilder};
use patterns::language::{detect_one, is_english};

fn detector() -> LanguageDetector {
    LanguageDetectorBuilder::from_languages(&[
        Language::English,
        Language::French,
        Language::German,
        Language::Polish,
        Language::Spanish,
    ])
    .with_minimum_relative_distance(0.4)
    .build()
}

#[test]
fn test_polish_detection() {
    let text = r"Mini. 5+ lat doświadczenia w obszarze cloud / architektury IT
    Doświadczenie w pracy z Microsoft Azure, w szczególności: projektowanie struktury Management Groups, Subscriptions i Resource Groups, znajomość Azure RBAC oraz Azure Policy
    Doświadczenie w projektowaniu i wdrażaniu architektury chmurowej w środowisku enterprise";
    assert!(
        !detect_one(&detector(), text),
        "Should NOT detect Polish job ad as English"
    );
}

#[test]
fn test_english_detection() {
    let detector = detector();
    let english_cases = vec![
        "the",
        "programming",
        "I love programming",
        "Machine learning is a subset of artificial intelligence that enables computers to learn without being explicitly programmed",
        "This is a comprehensive explanation of machine learning algorithms and their applications in modern software development practices",
    ];
    for text in english_cases {
        assert!(
            detect_one(&detector, text),
            "Should detect as English: \"{text}\""
        );
    }
}

#[test]
fn test_non_english_detection() {
    let detector = detector();
    let non_english_cases = vec![
        "Bonjour",
        "Guten Tag",
        "Hola",
        "Soy un desarrollador de software y me gusta trabajar con tecnologías modernas",
        "Je suis développeur de logiciels et j'aime travailler avec des technologies modernes",
        "Ich bin Softwareentwickler und arbeite gerne mit modernen Technologien",
        "Ciao",
        "Sono uno sviluppatore di software e mi piace lavorare con tecnologie moderne",
        "Hallo",
        "Ik ben een softwareontwikkelaar en ik werk graag met moderne technologieën",
        "Hej",
        "Jag är en mjukvaruutvecklare och jag gillar att arbeta med moderna teknologier",
        "Привет",
        "Я разработчик программного обеспечения и люблю работать с современными технологиями",
        "Cześć",
        "Jestem programistą i lubię pracować z nowoczesnymi technologiami",
        "こんにちは",
        "私はソフトウェア開発者で、最新のテクノロジーで働くのが好きです",
        "안녕하세요",
        "저는 소프트웨어 개발자이고 현대 기술로 일하는 것을 좋아합니다",
        "नमस्ते",
        "मैं एक सॉफ्टवेयर डेवलपर हूं और आधुनिक तकनीकों के साथ काम करना पसंद करता हूं",
        "สวัสดี",
        "ฉันเป็นนักพัฒนาซอฟต์แวร์และชอบทำงานกับเทคโนโลยีสมัยใหม่",
        "مرحبا",
        "أنا مطور برمجيات وأحب العمل مع التقنيات الحديثة",
        "שלום",
        "אני מפתח תוכנה ואני אוהב לעבוד עם טכנולוגיות מודרניות",
        "merhaba",
        "Yazılım geliştiricisiyim ve modern teknolojilerle çalışmayı seviyorum",
        "sawubona",
        "Ngiyisiphakeli se-software futhi ngiyathanda ukusebenza nobuchwepheshe besimanje",
        "hello",
        "hi",
        "TIL",
        "AITA",
    ];
    for text in non_english_cases {
        assert!(
            !detect_one(&detector, text),
            "Should NOT detect as English: \"{text}\""
        );
    }
}

#[test]
fn test_typos_still_detected() {
    let detector = detector();
    let typo_cases = [
        "I love programing",
        "Machne learning is a subset of artificail inteligence",
        "the quik brown fox",
    ];
    for text in typo_cases {
        assert!(
            detect_one(&detector, text),
            "Should detect as English despite typos: \"{text}\""
        );
    }
    assert!(
        !detect_one(
            &detector,
            "Dośwadczenie w projektowanii architektury chmurowej"
        ),
        "Polish with typos should NOT detect as English"
    );
}

#[test]
fn english_needs_its_code_and_confidence_above_one_half() {
    assert!(is_english("en", 0.51_f64.to_bits()));
    assert!(is_english("en", 1.0_f64.to_bits()));
    assert!(is_english("en", f64::INFINITY.to_bits()));
    assert!(!is_english("en", 0.5_f64.to_bits()));
    assert!(!is_english("en", 0.0_f64.to_bits()));
    assert!(!is_english("en", f64::NAN.to_bits()));
    assert!(!is_english("en", (-1.0_f64).to_bits()));
    assert!(!is_english("de", 1.0_f64.to_bits()));
}
