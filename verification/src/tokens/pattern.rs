//! Search patterns of a tokenizer: which of them a backtracking search is sure to be done with.
//!
//! A pattern is judged by its text alone, and where the text leaves a doubt it is not trusted. A
//! search engine counts how often it has to go back from one place and gives up at ten million
//! times, so what is judged is how often that can be.

use crate::text;
use vstd::prelude::*;

verus! {

broadcast use vstd::seq::group_seq_axioms;

/// How often a search for a pattern may have to go back from one place, whatever the text.
pub const MAX_STEPS: u32 = 200_000;

/// Most characters of a group that ignores case.
pub const MAX_FOLDED: usize = 64;

/// How often a search may have to go back in such a group.
pub const FOLD_STEPS: u32 = 1024;

/// Most alternatives of a group, but one.
pub const MAX_BARS: u32 = 1000;

/// A part of a pattern.
#[derive(Clone, Copy, PartialEq, Eq, Structural)]
pub enum Item {
    /// Stands for one character.
    Atom,
    /// Stands for a place between characters.
    Mark,
    Open,
    /// Opens a group that ignores case.
    Fold,
    /// Opens a group that looks back.
    Behind,
    Close,
    Bar,
    /// Makes what is before it optional.
    Optional,
    /// Repeats what is before it, perhaps no times at all.
    Repeat { skippable: bool },
    /// Anything else.
    Unknown,
}

/// The character at position `i`, a line feed behind the end.
pub open spec fn char_at(p: Seq<char>, i: int) -> char {
    if 0 <= i < p.len() {
        p[i]
    } else {
        '\n'
    }
}

/// Where the set of characters ends whose inside goes on at position `i`, `depth` sets deep; the
/// end of `p` where it does not end.
pub open spec fn set_end(p: Seq<char>, i: int, depth: nat) -> int
    decreases p.len() - i,
{
    if i >= p.len() || i < 0 {
        p.len() as int
    } else if p[i] == '\\' {
        if i + 1 < p.len() {
            set_end(p, i + 2, depth)
        } else {
            p.len() as int
        }
    } else if p[i] == '[' {
        set_end(p, i + 1, depth + 1)
    } else if p[i] == ']' {
        if depth <= 1 {
            i + 1
        } else {
            set_end(p, i + 1, (depth - 1) as nat)
        }
    } else {
        set_end(p, i + 1, depth)
    }
}

/// The position of the next `c` from position `i` on; the end of `p` where there is none.
pub open spec fn next_of(p: Seq<char>, c: char, i: int) -> int
    decreases p.len() - i,
{
    if i >= p.len() || i < 0 {
        p.len() as int
    } else if p[i] == c {
        i
    } else {
        next_of(p, c, i + 1)
    }
}

/// Whether the characters from `from` to `to` are digits and commas.
pub open spec fn counts(p: Seq<char>, from: int, to: int) -> bool {
    forall|k: int|
        from <= k < to ==> (text::is_digit(#[trigger] char_at(p, k)) || char_at(p, k) == ',')
}

/// Where a repetition sign ends whose mark for being lazy or possessive may stand at `i`.
pub open spec fn sign_end(p: Seq<char>, i: int) -> int {
    if char_at(p, i) == '?' || char_at(p, i) == '+' {
        i + 1
    } else {
        i
    }
}

/// What a backslash with the character `c` behind it stands for.
pub open spec fn escape(c: char) -> Item {
    if c == 'b' || c == 'B' || c == 'A' || c == 'z' || c == 'Z' {
        Item::Mark
    } else if c == 'n' || c == 'r' || c == 't' || c == 'f' || c == 'v' || c == 'w' || c == 'W' || c
        == 's' || c == 'S' || c == 'd' || c == 'D' || c == 'h' || c == 'H' {
        Item::Atom
    } else if ('!' <= c && c <= '/') || (':' <= c && c <= '@') || ('[' <= c && c <= '`') || ('{'
        <= c && c <= '~') || c == ' ' {
        Item::Atom
    } else {
        Item::Unknown
    }
}

/// Whether `c` may stand in a group that ignores case.
pub open spec fn plain(c: char) -> bool {
    ('a' <= c && c <= 'z') || ('A' <= c && c <= 'Z') || c == '\'' || c == '\u{2019}' || c == '|' || c
        == '[' || c == ']'
}

/// Whether the characters from `from` to `to` may stand in a group that ignores case.
pub open spec fn all_plain(p: Seq<char>, from: int, to: int) -> bool {
    forall|k: int| from <= k < to ==> plain(#[trigger] char_at(p, k))
}

/// Whether the group that goes on at `from` may ignore case: it holds a few letters, quotes,
/// alternatives and sets of those.
pub open spec fn folds(p: Seq<char>, from: int) -> bool {
    let end = next_of(p, ')', from);
    end < p.len() && end - from <= MAX_FOLDED && all_plain(p, from, end)
}

/// The part of `p` at position `i`, and where it ends.
pub open spec fn item_at(p: Seq<char>, i: int) -> (Item, int) {
    let c = char_at(p, i);
    let d = char_at(p, i + 1);
    let e = char_at(p, i + 2);
    if i + 1 < p.len() && c == '\\' {
        if d == 'p' || d == 'P' {
            if e == '{' && next_of(p, '}', i + 3) < p.len() {
                (Item::Atom, next_of(p, '}', i + 3) + 1)
            } else {
                (Item::Unknown, i + 1)
            }
        } else {
            (escape(d), i + 2)
        }
    } else if c == '[' {
        if d == ']' || (d == '^' && e == ']') || char_at(p, set_end(p, i + 1, 1) - 1) != ']' {
            (Item::Unknown, i + 1)
        } else {
            (Item::Atom, set_end(p, i + 1, 1))
        }
    } else if c == '(' {
        if d != '?' {
            if d == '*' {
                (Item::Unknown, i + 1)
            } else {
                (Item::Open, i + 1)
            }
        } else if e == ':' || e == '=' || e == '!' || e == '>' {
            (Item::Open, i + 3)
        } else if e == 'i' && char_at(p, i + 3) == ':' && folds(p, i + 4) {
            (Item::Fold, i + 4)
        } else if e == '<' && (char_at(p, i + 3) == '=' || char_at(p, i + 3) == '!') {
            (Item::Behind, i + 4)
        } else {
            (Item::Unknown, i + 1)
        }
    } else if c == '{' {
        let end = next_of(p, '}', i + 1);
        if text::is_digit(d) && end < p.len() && counts(p, i + 1, end) {
            (Item::Repeat { skippable: d == '0' }, end + 1)
        } else {
            (Item::Unknown, i + 1)
        }
    } else if c == '*' {
        (Item::Repeat { skippable: true }, sign_end(p, i + 1))
    } else if c == '+' {
        (Item::Repeat { skippable: false }, sign_end(p, i + 1))
    } else if c == '?' {
        (Item::Optional, sign_end(p, i + 1))
    } else if c == ')' {
        (Item::Close, i + 1)
    } else if c == '|' {
        (Item::Bar, i + 1)
    } else if c == '^' || c == '$' {
        (Item::Mark, i + 1)
    } else if c == ']' || c == '}' || c == '\\' {
        (Item::Unknown, i + 1)
    } else {
        (Item::Atom, i + 1)
    }
}

/// What the part just read was.
#[derive(Clone, Copy, PartialEq, Eq, Structural)]
pub enum Last {
    Atom,
    Group,
    Other,
}

/// How far a pattern has been judged.
#[derive(Clone, Copy, PartialEq, Eq, Structural)]
pub struct Scan {
    /// Groups that are open.
    pub depth: u8,
    /// Groups and repetitions of this alternative.
    pub groups: u8,
    pub repeats: u8,
    pub last: Last,
    /// Whether the open group has to have a fixed length.
    pub fixed: bool,
    /// Bars in the open group.
    pub bars: u32,
    /// In how many ways a search may have come here, but for how often something was repeated.
    pub ways: u32,
    /// Whether a search may have to go back into a repetition.
    pub runs: bool,
    /// In how many ways a search may have come to the second repetition, going back into the first.
    pub weight: u32,
    /// Whether this alternative is sure to take a character.
    pub takes: bool,
    /// Whether all alternatives before it are.
    pub all_take: bool,
    /// How often a search may have to go back in the alternatives before it: in all, and for each
    /// time that something is repeated.
    pub steps: u32,
    pub load: u32,
}

/// The scan before a pattern.
pub open spec fn begun() -> Scan {
    Scan {
        depth: 0,
        groups: 0,
        repeats: 0,
        last: Last::Other,
        fixed: false,
        bars: 0,
        ways: 1,
        runs: false,
        weight: 0,
        takes: false,
        all_take: true,
        steps: 0,
        load: 0,
    }
}

/// Whether `item` lets what is before it be left out.
pub open spec fn skips(item: Item) -> bool {
    match item {
        Item::Optional => true,
        Item::Repeat { skippable } => skippable,
        _ => false,
    }
}

/// The scan with `n` times as many ways, unless those are too many.
pub open spec fn times(s: Scan, n: int) -> Option<Scan> {
    if s.ways * n > MAX_STEPS {
        None
    } else {
        Some(Scan { ways: (s.ways * n) as u32, ..s })
    }
}

/// The scan in a group that is opened.
pub open spec fn opened(s: Scan, fixed: bool, n: int) -> Option<Scan> {
    if s.groups >= 2 {
        None
    } else {
        times(
            Scan {
                depth: (s.depth + 1) as u8,
                groups: (s.groups + 1) as u8,
                last: Last::Other,
                fixed: fixed || (s.depth > 0 && s.fixed),
                bars: if s.depth > 0 {
                    s.bars
                } else {
                    0
                },
                ..s
            },
            n,
        )
    }
}

/// How often a search may have to go back in this alternative for each time that something is
/// repeated. Behind a second repetition it does not.
pub open spec fn run_load(s: Scan) -> u32 {
    if s.repeats >= 2 {
        s.weight
    } else if s.runs {
        s.ways
    } else {
        0
    }
}

/// Whether the steps of this alternative are not too many, with those before it.
pub open spec fn affordable(s: Scan) -> bool {
    s.steps + s.ways <= MAX_STEPS
}

/// The scan behind `item`, with the part `next` behind it; `None` where a search might not be done.
///
/// Nothing in a group is repeated, nor a group itself. An alternative has at most two repetitions
/// and two groups, and behind two repetitions only a group that may be left out, so that with the
/// second repetition the search has found something.
pub open spec fn step(s: Scan, item: Item, next: Item) -> Option<Scan> {
    match item {
        Item::Atom => if s.repeats >= 2 && s.depth == 0 {
            None
        } else {
            Some(
                Scan {
                    last: Last::Atom,
                    takes: s.takes || (s.depth == 0 && !skips(next)),
                    runs: s.runs || (s.depth == 0 && s.repeats > 0 && !skips(next)),
                    ..s
                },
            )
        },
        Item::Mark => if s.repeats >= 2 && s.depth == 0 {
            None
        } else {
            Some(
                Scan {
                    last: Last::Other,
                    runs: s.runs || (s.depth == 0 && s.repeats > 0),
                    ..s
                },
            )
        },
        Item::Open => opened(s, false, 1),
        Item::Fold => opened(s, false, FOLD_STEPS as int),
        Item::Behind => opened(s, true, 1),
        Item::Close => if s.depth < 1 || (s.repeats >= 2 && next != Item::Optional) {
            None
        } else {
            times(
                Scan {
                    depth: (s.depth - 1) as u8,
                    last: Last::Group,
                    runs: s.runs || (s.depth == 1 && s.repeats > 0 && next != Item::Optional),
                    ..s
                },
                s.bars + 2,
            )
        },
        Item::Bar => if s.depth > 0 {
            if s.fixed || s.bars >= MAX_BARS {
                None
            } else {
                Some(Scan { last: Last::Other, bars: (s.bars + 1) as u32, ..s })
            }
        } else if affordable(s) {
            Some(
                Scan {
                    all_take: s.all_take && s.takes,
                    steps: (s.steps + s.ways) as u32,
                    load: (s.load + run_load(s)) as u32,
                    ..begun()
                },
            )
        } else {
            None
        },
        Item::Optional => if s.last == Last::Other || (s.depth > 0 && s.fixed) {
            None
        } else {
            times(Scan { last: Last::Other, ..s }, 2)
        },
        Item::Repeat { .. } => if s.last != Last::Atom || s.depth > 0 || s.repeats >= 2 {
            None
        } else {
            Some(
                Scan {
                    repeats: (s.repeats + 1) as u8,
                    last: Last::Other,
                    weight: if s.runs {
                        s.ways
                    } else {
                        0
                    },
                    ..s
                },
            )
        },
        Item::Unknown => None,
    }
}

/// What judging `p` from position `i` on comes to.
pub open spec fn scanned(p: Seq<char>, i: int, s: Scan) -> Option<Scan>
    decreases p.len() - i,
{
    if i >= p.len() || i < 0 {
        if s.depth == 0 && affordable(s) {
            Some(s)
        } else {
            None
        }
    } else {
        let (item, next) = item_at(p, i);
        if next <= i {
            None
        } else {
            match step(s, item, item_at(p, next).0) {
                Some(s) => scanned(p, next, s),
                None => None,
            }
        }
    }
}

/// Whether a search for `p` goes back, from any place, at most in proportion to the text.
pub open spec fn settles(p: Seq<char>) -> bool {
    scanned(p, 0, begun()) is Some
}

/// Whether moreover what is found is never empty.
pub open spec fn takes(p: Seq<char>) -> bool {
    scanned(p, 0, begun()) matches Some(s) && s.all_take && s.takes
}

/// How often, for each character of the text, a search for `p` may have to go back from one place.
pub open spec fn load(p: Seq<char>) -> nat {
    match scanned(p, 0, begun()) {
        Some(s) => (s.load + run_load(s)) as nat,
        None => 0,
    }
}

// ---- judging -------------------------------------------------------------------------------

fn ahead(p: &Vec<char>, i: usize, n: usize) -> (r: char)
    requires
        i <= p@.len(),
    ensures
        r == char_at(p@, i + n),
{
    if n < p.len() - i {
        p[i + n]
    } else {
        '\n'
    }
}

fn is_count_digit(c: char) -> (r: bool)
    ensures
        r == text::is_digit(c),
{
    '0' <= c && c <= '9'
}

fn find_set_end(p: &Vec<char>, from: usize) -> (r: usize)
    requires
        1 <= from <= p@.len(),
    ensures
        r == set_end(p@, from as int, 1),
        from <= r <= p@.len(),
{
    let mut i: usize = from;
    let mut depth: usize = 1;
    while i < p.len()
        invariant
            1 <= from <= i <= p@.len(),
            1 <= depth <= i - from + 1,
            set_end(p@, from as int, 1) == set_end(p@, i as int, depth as nat),
        decreases p@.len() - i,
    {
        let c: char = p[i];
        if c == '\\' {
            if p.len() - i < 2 {
                return p.len();
            }
            i += 2;
        } else {
            if c == '[' {
                depth += 1;
            } else if c == ']' {
                if depth <= 1 {
                    return i + 1;
                }
                depth -= 1;
            }
            i += 1;
        }
    }
    i
}

fn find_next(p: &Vec<char>, c: char, from: usize) -> (r: usize)
    requires
        from <= p@.len(),
    ensures
        r == next_of(p@, c, from as int),
        from <= r <= p@.len(),
{
    let mut i: usize = from;
    while i < p.len() && p[i] != c
        invariant
            from <= i <= p@.len(),
            next_of(p@, c, from as int) == next_of(p@, c, i as int),
        decreases p@.len() - i,
    {
        i += 1;
    }
    i
}

fn holds_counts(p: &Vec<char>, from: usize, to: usize) -> (r: bool)
    requires
        from <= to <= p@.len(),
    ensures
        r == counts(p@, from as int, to as int),
{
    let mut i: usize = from;
    while i < to
        invariant
            from <= i <= to <= p@.len(),
            counts(p@, from as int, i as int),
        decreases to - i,
    {
        let c: char = ahead(p, i, 0);
        if !is_count_digit(c) && c != ',' {
            assert(!(text::is_digit(char_at(p@, i as int)) || char_at(p@, i as int) == ','));
            return false;
        }
        i += 1;
    }
    true
}

fn find_sign_end(p: &Vec<char>, i: usize) -> (r: usize)
    requires
        i <= p@.len(),
    ensures
        r == sign_end(p@, i as int),
        i <= r <= p@.len(),
{
    let c: char = ahead(p, i, 0);
    if i < p.len() && (c == '?' || c == '+') {
        i + 1
    } else {
        i
    }
}

fn is_plain(c: char) -> (r: bool)
    ensures
        r == plain(c),
{
    ('a' <= c && c <= 'z') || ('A' <= c && c <= 'Z') || c == '\'' || c == '\u{2019}' || c == '|' || c
        == '[' || c == ']'
}

fn holds_plain(p: &Vec<char>, from: usize, to: usize) -> (r: bool)
    requires
        from <= to <= p@.len(),
    ensures
        r == all_plain(p@, from as int, to as int),
{
    let mut i: usize = from;
    while i < to
        invariant
            from <= i <= to <= p@.len(),
            all_plain(p@, from as int, i as int),
        decreases to - i,
    {
        let c: char = ahead(p, i, 0);
        if !is_plain(c) {
            assert(!plain(char_at(p@, i as int)));
            return false;
        }
        i += 1;
    }
    true
}

fn can_fold(p: &Vec<char>, from: usize) -> (r: bool)
    requires
        from <= p@.len(),
    ensures
        r == folds(p@, from as int),
{
    let end: usize = find_next(p, ')', from);
    end < p.len() && end - from <= MAX_FOLDED && holds_plain(p, from, end)
}

fn read_escape(c: char) -> (r: Item)
    ensures
        r == escape(c),
{
    if c == 'b' || c == 'B' || c == 'A' || c == 'z' || c == 'Z' {
        Item::Mark
    } else if c == 'n' || c == 'r' || c == 't' || c == 'f' || c == 'v' || c == 'w' || c == 'W' || c
        == 's' || c == 'S' || c == 'd' || c == 'D' || c == 'h' || c == 'H' {
        Item::Atom
    } else if ('!' <= c && c <= '/') || (':' <= c && c <= '@') || ('[' <= c && c <= '`') || ('{'
        <= c && c <= '~') || c == ' ' {
        Item::Atom
    } else {
        Item::Unknown
    }
}

fn read_item(p: &Vec<char>, i: usize) -> (r: (Item, usize))
    requires
        i < p@.len(),
    ensures
        (r.0, r.1 as int) == item_at(p@, i as int),
        i < r.1 <= p@.len(),
{
    let c: char = p[i];
    let d: char = ahead(p, i, 1);
    let e: char = ahead(p, i, 2);
    if p.len() - i > 1 && c == '\\' {
        if d == 'p' || d == 'P' {
            if e == '{' {
                let end: usize = find_next(p, '}', i + 3);
                if end < p.len() {
                    return (Item::Atom, end + 1);
                }
            }
            (Item::Unknown, i + 1)
        } else {
            (read_escape(d), i + 2)
        }
    } else if c == '[' {
        let end: usize = find_set_end(p, i + 1);
        if d == ']' || (d == '^' && e == ']') || ahead(p, end - 1, 0) != ']' {
            (Item::Unknown, i + 1)
        } else {
            (Item::Atom, end)
        }
    } else if c == '(' {
        let f: char = ahead(p, i, 3);
        if d != '?' {
            if d == '*' {
                (Item::Unknown, i + 1)
            } else {
                (Item::Open, i + 1)
            }
        } else if e == ':' || e == '=' || e == '!' || e == '>' {
            (Item::Open, i + 3)
        } else if e == 'i' && f == ':' && can_fold(p, i + 4) {
            (Item::Fold, i + 4)
        } else if e == '<' && (f == '=' || f == '!') {
            (Item::Behind, i + 4)
        } else {
            (Item::Unknown, i + 1)
        }
    } else if c == '{' {
        let end: usize = find_next(p, '}', i + 1);
        if is_count_digit(d) && end < p.len() && holds_counts(p, i + 1, end) {
            (Item::Repeat { skippable: d == '0' }, end + 1)
        } else {
            (Item::Unknown, i + 1)
        }
    } else if c == '*' {
        (Item::Repeat { skippable: true }, find_sign_end(p, i + 1))
    } else if c == '+' {
        (Item::Repeat { skippable: false }, find_sign_end(p, i + 1))
    } else if c == '?' {
        (Item::Optional, find_sign_end(p, i + 1))
    } else if c == ')' {
        (Item::Close, i + 1)
    } else if c == '|' {
        (Item::Bar, i + 1)
    } else if c == '^' || c == '$' {
        (Item::Mark, i + 1)
    } else if c == ']' || c == '}' || c == '\\' {
        (Item::Unknown, i + 1)
    } else {
        (Item::Atom, i + 1)
    }
}

/// Whether the numbers of a scan are as far as they can go.
spec fn held(s: Scan) -> bool {
    &&& s.depth <= s.groups <= 2
    &&& s.repeats <= 2
    &&& s.bars <= MAX_BARS
    &&& s.ways <= MAX_STEPS
    &&& s.weight <= s.ways
    &&& s.load <= s.steps <= MAX_STEPS
}

fn multiply(s: Scan, n: u32) -> (r: Option<Scan>)
    requires
        held(s),
        1 <= n <= 1024,
    ensures
        r == times(s, n as int),
        r matches Some(t) ==> held(t),
{
    assert(s.ways <= s.ways * n <= 200_000 * 1024) by (nonlinear_arith)
        requires
            s.ways <= 200_000,
            1 <= n <= 1024,
    ;
    if s.ways * n > MAX_STEPS {
        None
    } else {
        Some(Scan { ways: s.ways * n, ..s })
    }
}

fn open_group(s: Scan, fixed: bool, n: u32) -> (r: Option<Scan>)
    requires
        held(s),
        1 <= n <= 1024,
    ensures
        r == opened(s, fixed, n as int),
        r matches Some(t) ==> held(t),
{
    if s.groups >= 2 {
        None
    } else {
        let bars: u32 = if s.depth > 0 {
            s.bars
        } else {
            0
        };
        let fixed = fixed || (s.depth > 0 && s.fixed);
        multiply(
            Scan {
                depth: s.depth + 1,
                groups: s.groups + 1,
                last: Last::Other,
                fixed,
                bars,
                ..s
            },
            n,
        )
    }
}

fn load_of_runs(s: Scan) -> (r: u32)
    requires
        held(s),
    ensures
        r == run_load(s),
        r <= s.ways,
{
    if s.repeats >= 2 {
        s.weight
    } else if s.runs {
        s.ways
    } else {
        0
    }
}

fn begin(all_take: bool, steps: u32, load: u32) -> (r: Scan)
    ensures
        r == (Scan { all_take, steps, load, ..begun() }),
{
    Scan {
        depth: 0,
        groups: 0,
        repeats: 0,
        last: Last::Other,
        fixed: false,
        bars: 0,
        ways: 1,
        runs: false,
        weight: 0,
        takes: false,
        all_take,
        steps,
        load,
    }
}

fn advance(s: Scan, item: Item, next: Item) -> (r: Option<Scan>)
    requires
        held(s),
    ensures
        r == step(s, item, next),
        r matches Some(t) ==> held(t),
{
    let skipped = match next {
        Item::Optional => true,
        Item::Repeat { skippable } => skippable,
        _ => false,
    };
    match item {
        Item::Atom => {
            if s.repeats >= 2 && s.depth == 0 {
                None
            } else {
                let takes = s.takes || (s.depth == 0 && !skipped);
                let runs = s.runs || (s.depth == 0 && s.repeats > 0 && !skipped);
                Some(Scan { last: Last::Atom, takes, runs, ..s })
            }
        },
        Item::Mark => {
            if s.repeats >= 2 && s.depth == 0 {
                None
            } else {
                let runs = s.runs || (s.depth == 0 && s.repeats > 0);
                Some(Scan { last: Last::Other, runs, ..s })
            }
        },
        Item::Open => open_group(s, false, 1),
        Item::Fold => open_group(s, false, FOLD_STEPS),
        Item::Behind => open_group(s, true, 1),
        Item::Close => {
            if s.depth < 1 || (s.repeats >= 2 && next != Item::Optional) {
                None
            } else {
                let runs = s.runs || (s.depth == 1 && s.repeats > 0 && next != Item::Optional);
                multiply(Scan { depth: s.depth - 1, last: Last::Group, runs, ..s }, s.bars + 2)
            }
        },
        Item::Bar => {
            if s.depth > 0 {
                if s.fixed || s.bars >= MAX_BARS {
                    None
                } else {
                    Some(Scan { last: Last::Other, bars: s.bars + 1, ..s })
                }
            } else if s.steps + s.ways <= MAX_STEPS {
                let more: u32 = load_of_runs(s);
                Some(begin(s.all_take && s.takes, s.steps + s.ways, s.load + more))
            } else {
                None
            }
        },
        Item::Optional => {
            if s.last == Last::Other || (s.depth > 0 && s.fixed) {
                None
            } else {
                multiply(Scan { last: Last::Other, ..s }, 2)
            }
        },
        Item::Repeat { .. } => {
            if s.last != Last::Atom || s.depth > 0 || s.repeats >= 2 {
                None
            } else {
                let weight: u32 = if s.runs {
                    s.ways
                } else {
                    0
                };
                Some(Scan { repeats: s.repeats + 1, last: Last::Other, weight, ..s })
            }
        },
        Item::Unknown => None,
    }
}

fn scan(pattern: &str) -> (r: Option<Scan>)
    ensures
        r == scanned(pattern@, 0, begun()),
        r matches Some(s) ==> held(s) && affordable(s),
{
    let p = text::chars_of(pattern);
    let mut s = begin(true, 0, 0);
    let mut i: usize = 0;
    while i < p.len()
        invariant
            p@ == pattern@,
            0 <= i <= p@.len(),
            held(s),
            scanned(pattern@, 0, begun()) == scanned(pattern@, i as int, s),
        decreases p@.len() - i,
    {
        let (item, next) = read_item(&p, i);
        let follower = if next < p.len() {
            read_item(&p, next).0
        } else {
            Item::Atom
        };
        match advance(s, item, follower) {
            Some(t) => {
                s = t;
            },
            None => return None,
        }
        i = next;
    }
    if s.depth == 0 && s.steps + s.ways <= MAX_STEPS {
        Some(s)
    } else {
        None
    }
}

/// Whether a search for `pattern` goes back, from any place, at most in proportion to the text.
pub fn is_settling(pattern: &str) -> (r: bool)
    ensures
        r == settles(pattern@),
{
    scan(pattern).is_some()
}

/// Whether moreover what is found is never empty.
pub fn is_taking(pattern: &str) -> (r: bool)
    ensures
        r == takes(pattern@),
{
    match scan(pattern) {
        Some(s) => s.all_take && s.takes,
        None => false,
    }
}

/// How often, for each character of the text, a search for `pattern` may have to go back from one
/// place.
pub fn measure(pattern: &str) -> (r: u32)
    ensures
        r == load(pattern@),
{
    match scan(pattern) {
        Some(s) => s.load + load_of_runs(s),
        None => 0,
    }
}

} // verus!
