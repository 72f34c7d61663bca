//! What holds of JSON texts.

use crate::json;
use crate::text;
use vstd::prelude::*;

verus! {

broadcast use vstd::seq::group_seq_axioms;

/// A JSON document, with the members of its objects in order.
pub enum Doc {
    Null,
    Text(Seq<char>),
    Number(nat),
    /// A value, as it is rendered.
    Value(serde_json::Value),
    List(Seq<Doc>),
    Object(Seq<(Seq<char>, Doc)>),
}

/// How a document is written, without spaces: elements and members with commas between them, members
/// as a name, a colon and a value, texts and names as JSON strings.
pub open spec fn written(doc: Doc) -> Seq<char>
    decreases doc,
{
    match doc {
        Doc::Null => seq!['n', 'u', 'l', 'l'],
        Doc::Text(s) => json::quoted(s),
        Doc::Number(n) => text::digits(n),
        Doc::Value(value) => json::rendered(value),
        Doc::List(items) => seq!['['] + items_written(items) + seq![']'],
        Doc::Object(members) => seq!['{'] + members_written(members) + seq!['}'],
    }
}

/// How the elements of a list are written.
pub open spec fn items_written(items: Seq<Doc>) -> Seq<char>
    decreases items,
{
    if items.len() == 0 {
        Seq::empty()
    } else if items.len() == 1 {
        written(items[0])
    } else {
        items_written(items.subrange(0, items.len() - 1)) + seq![','] + written(
            items[items.len() - 1],
        )
    }
}

/// How the members of an object are written.
pub open spec fn members_written(members: Seq<(Seq<char>, Doc)>) -> Seq<char>
    decreases members,
{
    if members.len() == 0 {
        Seq::empty()
    } else if members.len() == 1 {
        json::quoted(members[0].0) + seq![':'] + written(members[0].1)
    } else {
        members_written(members.subrange(0, members.len() - 1)) + seq![','] + json::quoted(
            members[members.len() - 1].0,
        ) + seq![':'] + written(members[members.len() - 1].1)
    }
}

/// Whether an object has the member `key` with the value `doc`.
pub open spec fn has(members: Seq<(Seq<char>, Doc)>, key: Seq<char>, doc: Doc) -> bool {
    members.contains((key, doc))
}

/// Whether an object has no member `key`.
pub open spec fn lacks(members: Seq<(Seq<char>, Doc)>, key: Seq<char>) -> bool {
    forall|i: int| 0 <= i < members.len() ==> (#[trigger] members[i]).0 != key
}

/// Whether an object has no member twice.
pub open spec fn named_once(members: Seq<(Seq<char>, Doc)>) -> bool {
    forall|i: int, j: int|
        0 <= i < j < members.len() ==> (#[trigger] members[i]).0 != (#[trigger] members[j]).0
}

/// A member behind others is written behind a comma.
pub proof fn lemma_member_behind(members: Seq<(Seq<char>, Doc)>, key: Seq<char>, doc: Doc)
    ensures
        members_written(members.push((key, doc))) == (if members.len() == 0 {
            Seq::empty()
        } else {
            members_written(members) + seq![',']
        }) + json::quoted(key) + seq![':'] + written(doc),
{
    let all = members.push((key, doc));
    assert(all.subrange(0, all.len() - 1) =~= members);
    assert(Seq::<char>::empty() + json::quoted(key) =~= json::quoted(key));
}

/// A list of documents is written as the documents, joined by commas.
pub proof fn lemma_items_joined(items: Seq<Doc>)
    ensures
        items_written(items) == text::joined(items.map_values(|d: Doc| written(d)), ","@),
    decreases items.len(),
{
    reveal_strlit(",");
    let texts = items.map_values(|d: Doc| written(d));
    assert(","@ =~= seq![',']);
    if items.len() > 1 {
        let before = items.subrange(0, items.len() - 1);
        lemma_items_joined(before);
        assert(texts.drop_last() =~= before.map_values(|d: Doc| written(d)));
    }
}

/// The elements of a list that are texts.
pub open spec fn text_docs(texts: Seq<Seq<char>>) -> Seq<Doc> {
    texts.map_values(|t: Seq<char>| Doc::Text(t))
}

/// How a member is written.
pub open spec fn member_written(member: (Seq<char>, Doc)) -> Seq<char> {
    json::quoted(member.0) + seq![':'] + written(member.1)
}

/// Members are written one by one, joined by commas.
pub proof fn lemma_members_joined(members: Seq<(Seq<char>, Doc)>)
    ensures
        members_written(members) == text::joined(
            members.map_values(|m: (Seq<char>, Doc)| member_written(m)),
            ","@,
        ),
    decreases members.len(),
{
    reveal_strlit(",");
    let texts = members.map_values(|m: (Seq<char>, Doc)| member_written(m));
    assert(","@ =~= seq![',']);
    if members.len() > 1 {
        let before = members.subrange(0, members.len() - 1);
        lemma_members_joined(before);
        assert(texts.drop_last() =~= before.map_values(|m: (Seq<char>, Doc)| member_written(m)));
        assert(texts.last() == member_written(members.last()));
        assert(members_written(members) =~= members_written(before) + seq![','] + member_written(
            members.last(),
        ));
    }
}

/// A name of letters and underscores is written as it is, in quotes.
pub proof fn lemma_plain_name(key: Seq<char>)
    requires
        forall|k: int|
            0 <= k < key.len() ==> 'a' <= #[trigger] key[k] <= 'z' || key[k] == '_',
    ensures
        json::quoted(key) == seq!['"'] + key + seq!['"'],
    decreases key.len(),
{
    lemma_plain(key);
}

proof fn lemma_plain(key: Seq<char>)
    requires
        forall|k: int|
            0 <= k < key.len() ==> 'a' <= #[trigger] key[k] <= 'z' || key[k] == '_',
    ensures
        json::escaped_all(key) == key,
    decreases key.len(),
{
    if key.len() > 0 {
        lemma_plain(key.drop_last());
        assert('a' <= key[key.len() - 1] <= 'z' || key[key.len() - 1] == '_');
        assert(json::escaped(key.last()) =~= seq![key.last()]);
        assert(key.drop_last() + seq![key.last()] =~= key);
    }
}

// ---- strings -------------------------------------------------------------------------------

/// Different texts are different JSON strings: the text can be read back.
pub proof fn strings_tell_texts_apart(a: Seq<char>, b: Seq<char>)
    requires
        json::quoted(a) == json::quoted(b),
    ensures
        a == b,
{
    let x = json::escaped_all(a);
    let y = json::escaped_all(b);
    assert(x =~= json::quoted(a).subrange(1, json::quoted(a).len() - 1));
    assert(y =~= json::quoted(b).subrange(1, json::quoted(b).len() - 1));
    lemma_read_back(a);
    lemma_read_back(b);
}

/// The characters of a JSON string from position `i` on, escapes read.
spec fn read_from(s: Seq<char>, i: int) -> Seq<char>
    decreases s.len() - i,
{
    if i < 0 || i >= s.len() {
        Seq::empty()
    } else if s[i] != '\\' {
        seq![s[i]] + read_from(s, i + 1)
    } else if i + 5 < s.len() && s[i + 1] == 'u' {
        seq![(16 * hex_value(s[i + 4]) + hex_value(s[i + 5])) as char] + read_from(s, i + 6)
    } else if i + 1 < s.len() {
        seq![unescaped(s[i + 1])] + read_from(s, i + 2)
    } else {
        Seq::empty()
    }
}

spec fn hex_value(c: char) -> int {
    if c <= '9' {
        c as int - 0x30
    } else {
        c as int - 0x61 + 10
    }
}

spec fn unescaped(c: char) -> char {
    if c == 'b' {
        '\u{8}'
    } else if c == 't' {
        '\u{9}'
    } else if c == 'n' {
        '\u{a}'
    } else if c == 'f' {
        '\u{c}'
    } else if c == 'r' {
        '\u{d}'
    } else {
        c
    }
}

proof fn lemma_read_back(s: Seq<char>)
    ensures
        read_from(json::escaped_all(s), 0) == s,
{
    let none = Seq::<char>::empty();
    lemma_read_behind(s, none);
    assert(json::escaped_all(s) + none =~= json::escaped_all(s));
    assert(read_from(none, 0) =~= none);
    assert(s + none =~= s);
}

/// Reading an escaped text gives the text, then what stands behind it.
proof fn lemma_read_behind(s: Seq<char>, rest: Seq<char>)
    ensures
        read_from(json::escaped_all(s) + rest, 0) == s + read_from(rest, 0),
    decreases s.len(),
{
    if s.len() == 0 {
        assert(json::escaped_all(s) + rest =~= rest);
        assert(s + read_from(rest, 0) =~= read_from(rest, 0));
    } else {
        let c = s.last();
        let before = s.drop_last();
        lemma_read_behind(before, json::escaped(c) + rest);
        lemma_read_one(c, rest);
        assert(json::escaped_all(s) + rest =~= json::escaped_all(before) + (json::escaped(c)
            + rest));
        assert(before + (seq![c] + read_from(rest, 0)) =~= s + read_from(rest, 0));
    }
}

proof fn lemma_read_one(c: char, rest: Seq<char>)
    ensures
        read_from(json::escaped(c) + rest, 0) == seq![c] + read_from(rest, 0),
{
    let e = json::escaped(c);
    let all = e + rest;
    lemma_read_shift(e, rest, 0);
    assert(all[0] == e[0]);
    if e.len() > 1 {
        assert(all[1] == e[1]);
    }
    if e.len() == 6 {
        let u = c as u32;
        assert(all[4] == e[4] && all[5] == e[5]);
        assert(hex_value(e[4]) == u / 16) by {
            assert(u / 16 < 16);
        }
        assert(hex_value(e[5]) == u % 16) by {
            assert(u % 16 < 16);
        }
        assert(16 * (u / 16) + u % 16 == u);
    }
}

/// Reading does not depend on what was read before.
proof fn lemma_read_shift(a: Seq<char>, b: Seq<char>, i: int)
    requires
        0 <= i,
    ensures
        read_from(a + b, a.len() + i) == read_from(b, i),
    decreases b.len() - i,
{
    let all = a + b;
    if i < b.len() {
        assert(all[a.len() + i] == b[i]);
        if b[i] != '\\' {
            lemma_read_shift(a, b, i + 1);
        } else if i + 5 < b.len() && b[i + 1] == 'u' {
            assert(all[a.len() + i + 1] == b[i + 1]);
            assert(all[a.len() + i + 4] == b[i + 4]);
            assert(all[a.len() + i + 5] == b[i + 5]);
            lemma_read_shift(a, b, i + 6);
        } else if i + 1 < b.len() {
            assert(all[a.len() + i + 1] == b[i + 1]);
            lemma_read_shift(a, b, i + 2);
        }
    }
}

} // verus!
