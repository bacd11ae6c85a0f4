//! Text: code-point order, decimal rendering, splitting and joining.
//!
//! A string is modelled by the sequence of its characters.
use vstd::prelude::*;
use vstd::string::*;

verus! {

/// `String::push` appends the given character to the end of the string.
pub assume_specification[ std::string::String::push ](s: &mut std::string::String, c: char)
    ensures
        final(s)@ == old(s)@.push(c),
;

/// The characters of a string, in order.
pub fn chars_of(s: &str) -> (r: Vec<char>)
    ensures
        r@ == s@,
{
    let mut out: Vec<char> = Vec::new();
    for c in it: s.chars()
        invariant
            out@ == it.seq().take(it.index()),
            it.seq() == s@,
    {
        out.push(c);
        assert(it.seq().take(it.index()).push(c) =~= it.seq().take(it.index() + 1));
    }
    assert(s@.take(s@.len() as int) =~= s@);
    out
}

/// An owned copy of a borrowed string.
pub fn owned(s: &str) -> (r: String)
    ensures
        r@ == s@,
{
    s.to_owned()
}

/// Whether two strings hold the same characters.
pub fn same_text(a: &str, b: &str) -> (r: bool)
    ensures
        r == (a@ == b@),
{
    let x: Vec<char> = chars_of(a);
    let y: Vec<char> = chars_of(b);
    if x.len() != y.len() {
        return false;
    }
    let mut i: usize = 0;
    while i < x.len()
        invariant
            x.len() == y.len(),
            i <= x.len(),
            x@ == a@,
            y@ == b@,
            forall|j: int| 0 <= j < i ==> x@[j] == y@[j],
        decreases x.len() - i,
    {
        if x[i] != y[i] {
            assert(a@[i as int] != b@[i as int]);
            return false;
        }
        i += 1;
    }
    assert(x@ =~= y@);
    true
}

/// Strict lexicographic order of character sequences by code point.
pub open spec fn text_lt(a: Seq<char>, b: Seq<char>) -> bool
    decreases a.len(),
{
    if b.len() == 0 {
        false
    } else if a.len() == 0 {
        true
    } else if a[0] != b[0] {
        a[0] < b[0]
    } else {
        text_lt(a.skip(1), b.skip(1))
    }
}

/// No text comes before itself.
pub proof fn lemma_text_lt_irreflexive(a: Seq<char>)
    ensures
        !text_lt(a, a),
    decreases a.len(),
{
    if a.len() > 0 {
        lemma_text_lt_irreflexive(a.skip(1));
    }
}

/// The order of texts is transitive.
pub proof fn lemma_text_lt_transitive(a: Seq<char>, b: Seq<char>, c: Seq<char>)
    requires
        text_lt(a, b),
        text_lt(b, c),
    ensures
        text_lt(a, c),
    decreases a.len(),
{
    if a.len() > 0 && a[0] == b[0] && b[0] == c[0] {
        lemma_text_lt_transitive(a.skip(1), b.skip(1), c.skip(1));
    }
}

/// Of two texts either one comes first or they are the same.
pub proof fn lemma_text_lt_total(a: Seq<char>, b: Seq<char>)
    ensures
        text_lt(a, b) || text_lt(b, a) || a == b,
    decreases a.len(),
{
    if a.len() == 0 && b.len() == 0 {
        assert(a =~= b);
    } else if a.len() > 0 && b.len() > 0 && a[0] == b[0] {
        lemma_text_lt_total(a.skip(1), b.skip(1));
        if a.skip(1) == b.skip(1) {
            assert(a =~= seq![a[0]] + a.skip(1));
            assert(b =~= seq![b[0]] + b.skip(1));
        }
    }
}

/// A text comes before its continuations, and of two that go on differently behind a common
/// beginning the one with the lower character there comes first.
pub proof fn lemma_text_lt_by_character(
    common: Seq<char>,
    a: char,
    b: char,
    s: Seq<char>,
    t: Seq<char>,
)
    requires
        (a as int) < (b as int),
    ensures
        text_lt(common.push(a) + s, common.push(b) + t),
        !text_lt(common.push(b) + t, common.push(a) + s),
        text_lt(common, common.push(a) + s),
        !text_lt(common.push(a) + s, common),
    decreases common.len(),
{
    let x = common.push(a) + s;
    let y = common.push(b) + t;
    if common.len() > 0 {
        let rest = common.skip(1);
        lemma_text_lt_by_character(rest, a, b, s, t);
        assert(x.skip(1) =~= rest.push(a) + s);
        assert(y.skip(1) =~= rest.push(b) + t);
    }
}

/// How one text stands to another.
#[derive(Clone, Copy, PartialEq, Eq, Structural, Debug)]
pub enum Relation {
    Before,
    Same,
    After,
}

/// The relation of `a` to `b` in code-point order.
pub open spec fn text_relation(a: Seq<char>, b: Seq<char>) -> Relation {
    if a == b {
        Relation::Same
    } else if text_lt(a, b) {
        Relation::Before
    } else {
        Relation::After
    }
}

/// Compares two character vectors from a common position on.
fn relate_from(x: &Vec<char>, y: &Vec<char>, at: usize) -> (r: Relation)
    requires
        at <= x.len(),
        at <= y.len(),
    ensures
        r == text_relation(x@.skip(at as int), y@.skip(at as int)),
    decreases x.len() - at,
{
    let ghost a = x@.skip(at as int);
    let ghost b = y@.skip(at as int);
    if at == x.len() {
        if at == y.len() {
            assert(a =~= b);
            Relation::Same
        } else {
            assert(a.len() == 0 && b.len() > 0);
            Relation::Before
        }
    } else if at == y.len() {
        assert(b.len() == 0 && a.len() > 0);
        Relation::After
    } else {
        let c: char = x[at];
        let d: char = y[at];
        assert(a[0] == c && b[0] == d);
        if c != d {
            if c < d {
                Relation::Before
            } else {
                Relation::After
            }
        } else {
            assert(a.skip(1) =~= x@.skip(at + 1));
            assert(b.skip(1) =~= y@.skip(at + 1));
            proof {
                assert(a =~= seq![a[0]] + a.skip(1));
                assert(b =~= seq![b[0]] + b.skip(1));
            }
            relate_from(x, y, at + 1)
        }
    }
}

/// Compares two strings by code point.
pub fn relate(a: &str, b: &str) -> (r: Relation)
    ensures
        r == text_relation(a@, b@),
{
    let x: Vec<char> = chars_of(a);
    let y: Vec<char> = chars_of(b);
    assert(x@.skip(0) =~= x@);
    assert(y@.skip(0) =~= y@);
    relate_from(&x, &y, 0)
}

/// Whether `s` begins with `prefix`.
pub open spec fn begins_with(s: Seq<char>, prefix: Seq<char>) -> bool {
    prefix.len() <= s.len() && s.take(prefix.len() as int) == prefix
}

/// Whether `s` begins with `prefix`.
pub fn starts_with(s: &str, prefix: &str) -> (r: bool)
    ensures
        r == begins_with(s@, prefix@),
{
    let x: Vec<char> = chars_of(s);
    let p: Vec<char> = chars_of(prefix);
    if p.len() > x.len() {
        return false;
    }
    let mut i: usize = 0;
    while i < p.len()
        invariant
            p.len() <= x.len(),
            i <= p.len(),
            x@ == s@,
            p@ == prefix@,
            forall|j: int| 0 <= j < i ==> x@[j] == p@[j],
        decreases p.len() - i,
    {
        if x[i] != p[i] {
            assert(s@.take(p.len() as int)[i as int] != p@[i as int]);
            return false;
        }
        i += 1;
    }
    assert(s@.take(p.len() as int) =~= p@);
    true
}

/// What stands behind a prefix, if it is one.
pub open spec fn behind(s: Seq<char>, prefix: Seq<char>) -> Option<Seq<char>> {
    if begins_with(s, prefix) {
        Some(s.skip(prefix.len() as int))
    } else {
        None
    }
}

/// What stands behind a prefix, if it is one.
pub fn strip_prefix(s: &str, prefix: &str) -> (r: Option<String>)
    ensures
        match behind(s@, prefix@) {
            Some(rest) => r is Some && r->0@ == rest,
            None => r is None,
        },
{
    if !starts_with(s, prefix) {
        return None;
    }
    let x: Vec<char> = chars_of(s);
    let p: Vec<char> = chars_of(prefix);
    let mut rest: String = String::new();
    let mut i: usize = p.len();
    assert(rest@ =~= x@.subrange(p@.len() as int, p@.len() as int));
    while i < x.len()
        invariant
            p@.len() <= i <= x@.len(),
            rest@ == x@.subrange(p@.len() as int, i as int),
        decreases x@.len() - i,
    {
        rest.push(x[i]);
        assert(rest@ =~= x@.subrange(p@.len() as int, i + 1));
        i += 1;
    }
    assert(rest@ =~= s@.skip(p@.len() as int));
    Some(rest)
}

/// The pieces of `s` between the separators, in order; one piece more than separators.
pub open spec fn pieces(s: Seq<char>, sep: char) -> Seq<Seq<char>>
    decreases s.len(),
{
    if s.len() == 0 {
        seq![Seq::<char>::empty()]
    } else {
        let rest = pieces(s.drop_last(), sep);
        if s.last() == sep {
            rest.push(Seq::<char>::empty())
        } else {
            rest.drop_last().push(rest.last().push(s.last()))
        }
    }
}

/// A split has at least one piece.
pub proof fn lemma_pieces_nonempty(s: Seq<char>, sep: char)
    ensures
        pieces(s, sep).len() > 0,
    decreases s.len(),
{
    if s.len() > 0 {
        lemma_pieces_nonempty(s.drop_last(), sep);
    }
}

/// Pieces with a separator between each two.
pub open spec fn joined(parts: Seq<Seq<char>>, sep: char) -> Seq<char>
    decreases parts.len(),
{
    if parts.len() == 0 {
        Seq::empty()
    } else if parts.len() == 1 {
        parts[0]
    } else {
        joined(parts.drop_last(), sep).push(sep) + parts.last()
    }
}

/// The pieces of a text are free of the separator, and joined with it they are the text again.
pub proof fn lemma_pieces_join(s: Seq<char>, sep: char)
    ensures
        joined(pieces(s, sep), sep) == s,
        forall|i: int| 0 <= i < pieces(s, sep).len() ==> !(#[trigger] pieces(s, sep)[i]).contains(sep),
    decreases s.len(),
{
    let parts = pieces(s, sep);
    if s.len() == 0 {
        assert(parts[0] =~= s);
    } else {
        let front = s.drop_last();
        let rest = pieces(front, sep);
        lemma_pieces_join(front, sep);
        lemma_pieces_nonempty(front, sep);
        if s.last() == sep {
            assert(parts.drop_last() =~= rest);
            assert(joined(parts, sep) =~= s);
            assert forall|i: int| 0 <= i < parts.len() implies !(#[trigger] parts[i]).contains(
                sep,
            ) by {
                if i < rest.len() {
                    assert(parts[i] == rest[i]);
                }
            }
        } else {
            assert(parts.drop_last() =~= rest.drop_last());
            assert(joined(parts, sep) =~= joined(rest, sep).push(s.last()));
            assert(joined(parts, sep) =~= s);
            assert forall|i: int| 0 <= i < parts.len() implies !(#[trigger] parts[i]).contains(
                sep,
            ) by {
                if i < rest.len() - 1 {
                    assert(parts[i] == rest[i]);
                } else {
                    let last = rest[rest.len() - 1];
                    assert(parts[i] == last.push(s.last()));
                    assert forall|j: int| 0 <= j < parts[i].len() implies parts[i][j] != sep by {
                        if j < last.len() {
                            assert(last[j] == parts[i][j]);
                            assert(!last.contains(sep));
                        }
                    }
                }
            }
        }
    }
}

/// What stands behind the last separator is the last piece.
pub proof fn lemma_pieces_behind(s: Seq<char>, sep: char, piece: Seq<char>)
    requires
        !piece.contains(sep),
    ensures
        pieces(s.push(sep) + piece, sep) == pieces(s, sep).push(piece),
    decreases piece.len(),
{
    let whole = s.push(sep) + piece;
    if piece.len() == 0 {
        assert(piece =~= Seq::<char>::empty());
        assert(whole =~= s.push(sep));
        assert(whole.drop_last() =~= s);
        assert(pieces(whole, sep) =~= pieces(s, sep).push(piece));
    } else {
        let front = piece.drop_last();
        assert forall|i: int| 0 <= i < front.len() implies front[i] != sep by {
            assert(piece[i] == front[i]);
        }
        lemma_pieces_behind(s, sep, front);
        assert(whole.drop_last() =~= s.push(sep) + front);
        assert(whole.last() == piece.last());
        assert(piece.last() != sep) by {
            assert(piece[piece.len() - 1] == piece.last());
        }
        let rest = pieces(s, sep).push(front);
        assert(front.push(piece.last()) =~= piece);
        assert(rest.drop_last().push(rest.last().push(whole.last())) =~= pieces(s, sep).push(piece));
    }
}

/// A text without separators is one piece.
pub proof fn lemma_one_piece(s: Seq<char>, sep: char)
    requires
        !s.contains(sep),
    ensures
        pieces(s, sep) == seq![s],
    decreases s.len(),
{
    if s.len() == 0 {
        assert(s =~= Seq::<char>::empty());
    } else {
        let front = s.drop_last();
        assert forall|i: int| 0 <= i < front.len() implies front[i] != sep by {
            assert(s[i] == front[i]);
        }
        lemma_one_piece(front, sep);
        assert(s[s.len() - 1] == s.last());
        assert(front.push(s.last()) =~= s);
        assert(pieces(s, sep) =~= seq![s]);
    }
}

/// The views of a vector of strings.
pub open spec fn texts(v: Seq<String>) -> Seq<Seq<char>> {
    v.map_values(|s: String| s@)
}

/// Texts with one added at the end, unless it is there.
pub open spec fn text_added(v: Seq<Seq<char>>, t: Seq<char>) -> Seq<Seq<char>> {
    if v.contains(t) {
        v
    } else {
        v.push(t)
    }
}

/// Whether a text is in a list.
pub fn contains_text(v: &Vec<String>, t: &str) -> (r: bool)
    ensures
        r == texts(v@).contains(t@),
{
    let mut i: usize = 0;
    while i < v.len()
        invariant
            i <= v.len(),
            forall|j: int| 0 <= j < i ==> #[trigger] texts(v@)[j] != t@,
        decreases v.len() - i,
    {
        if same_text(v[i].as_str(), t) {
            assert(texts(v@)[i as int] == t@);
            return true;
        }
        i += 1;
    }
    false
}

/// Adds a text at the end of a list, unless it is there.
pub fn add_text(v: &mut Vec<String>, t: String)
    ensures
        texts(final(v)@) == text_added(texts(old(v)@), t@),
{
    if !contains_text(v, t.as_str()) {
        let ghost before = texts(v@);
        v.push(t);
        assert(texts(v@) =~= before.push(t@));
    }
}

/// Splits at every separator.
pub fn split(s: &str, sep: char) -> (r: Vec<String>)
    ensures
        texts(r@) == pieces(s@, sep),
        r.len() > 0,
{
    let x: Vec<char> = chars_of(s);
    let mut done: Vec<String> = Vec::new();
    let mut piece: String = String::new();
    let mut i: usize = 0;
    assert(texts(done@).push(piece@) =~= pieces(x@.take(0), sep));
    while i < x.len()
        invariant
            i <= x.len(),
            x@ == s@,
            texts(done@).push(piece@) == pieces(x@.take(i as int), sep),
        decreases x.len() - i,
    {
        let c: char = x[i];
        let ghost before = texts(done@);
        let ghost current = piece@;
        assert(x@.take(i + 1).drop_last() =~= x@.take(i as int));
        assert(x@.take(i + 1).last() == c);
        assert(before.push(current).drop_last() =~= before);
        if c == sep {
            done.push(piece);
            piece = String::new();
            assert(texts(done@) =~= before.push(current));
        } else {
            piece.push(c);
        }
        i += 1;
    }
    assert(x@.take(i as int) =~= s@);
    let ghost last = piece@;
    let ghost before = texts(done@);
    done.push(piece);
    assert(texts(done@) =~= before.push(last));
    done
}

/// Unicode white space.
pub open spec fn is_blank(c: char) -> bool {
    ||| 0x09 <= c as u32 <= 0x0d
    ||| c as u32 == 0x20
    ||| c as u32 == 0x85
    ||| c as u32 == 0xa0
    ||| c as u32 == 0x1680
    ||| 0x2000 <= c as u32 <= 0x200a
    ||| c as u32 == 0x2028
    ||| c as u32 == 0x2029
    ||| c as u32 == 0x202f
    ||| c as u32 == 0x205f
    ||| c as u32 == 0x3000
}

/// Whether a character is Unicode white space.
pub fn blank(c: char) -> (r: bool)
    ensures
        r == is_blank(c),
{
    let n: u32 = c as u32;
    (0x09 <= n && n <= 0x0d) || n == 0x20 || n == 0x85 || n == 0xa0 || n == 0x1680 || (0x2000 <= n
        && n <= 0x200a) || n == 0x2028 || n == 0x2029 || n == 0x202f || n == 0x205f || n == 0x3000
}

/// Whether every character is white space.
pub open spec fn all_blank(s: Seq<char>) -> bool {
    forall|i: int| 0 <= i < s.len() ==> is_blank(#[trigger] s[i])
}

/// Whether nothing is left of a string once white space is trimmed.
pub fn is_all_blank(s: &str) -> (r: bool)
    ensures
        r == all_blank(s@),
{
    let x: Vec<char> = chars_of(s);
    let mut i: usize = 0;
    while i < x.len()
        invariant
            i <= x.len(),
            x@ == s@,
            forall|j: int| 0 <= j < i ==> is_blank(#[trigger] x@[j]),
        decreases x.len() - i,
    {
        if !blank(x[i]) {
            return false;
        }
        i += 1;
    }
    true
}

/// The words of `s`: its maximal runs of characters that are not white space.
/// The flag says whether the last word is still open at the end of `s`.
pub open spec fn word_run(s: Seq<char>) -> (Seq<Seq<char>>, bool)
    decreases s.len(),
{
    if s.len() == 0 {
        (Seq::<Seq<char>>::empty(), false)
    } else {
        let (done, open) = word_run(s.drop_last());
        if is_blank(s.last()) {
            (done, false)
        } else if open {
            (done.drop_last().push(done.last().push(s.last())), true)
        } else {
            (done.push(seq![s.last()]), true)
        }
    }
}

/// The words of a text, in order.
pub open spec fn words(s: Seq<char>) -> Seq<Seq<char>> {
    word_run(s).0
}

/// Splits at white space, dropping empty pieces.
pub fn split_words(s: &str) -> (r: Vec<String>)
    ensures
        texts(r@) == words(s@),
{
    let x: Vec<char> = chars_of(s);
    let mut done: Vec<String> = Vec::new();
    let mut open: bool = false;
    let mut piece: String = String::new();
    let mut i: usize = 0;
    assert(texts(done@) =~= Seq::<Seq<char>>::empty());
    while i < x.len()
        invariant
            i <= x.len(),
            x@ == s@,
            word_run(x@.take(i as int)) == (if open {
                (texts(done@).push(piece@), true)
            } else {
                (texts(done@), false)
            }),
            !open ==> piece@.len() == 0,
        decreases x.len() - i,
    {
        let c: char = x[i];
        let ghost before = texts(done@);
        let ghost current = piece@;
        assert(x@.take(i + 1).drop_last() =~= x@.take(i as int));
        assert(x@.take(i + 1).last() == c);
        assert(before.push(current).drop_last() =~= before);
        if blank(c) {
            if open {
                done.push(piece);
                piece = String::new();
                open = false;
                assert(texts(done@) =~= before.push(current));
            }
        } else {
            assert(!open ==> current.push(c) =~= seq![c]);
            piece.push(c);
            open = true;
        }
        i += 1;
    }
    assert(x@.take(i as int) =~= s@);
    if open {
        let ghost last = piece@;
        let ghost before = texts(done@);
        done.push(piece);
        assert(texts(done@) =~= before.push(last));
    }
    done
}

/// The character of a decimal digit.
pub open spec fn digit_char(d: nat) -> char {
    (0x30 + d) as char
}

/// The character of a decimal digit.
fn digit(d: u64) -> (c: char)
    requires
        d < 10,
    ensures
        c == digit_char(d as nat),
{
    match d {
        0 => '0',
        1 => '1',
        2 => '2',
        3 => '3',
        4 => '4',
        5 => '5',
        6 => '6',
        7 => '7',
        8 => '8',
        _ => '9',
    }
}

/// The decimal numeral of a natural number.
pub open spec fn decimal_text(n: nat) -> Seq<char>
    decreases n,
{
    if n < 10 {
        seq![digit_char(n)]
    } else {
        decimal_text(n / 10).push(digit_char(n % 10))
    }
}

/// The decimal numeral of a number.
pub fn decimal(n: u64) -> (r: String)
    ensures
        r@ == decimal_text(n as nat),
    decreases n,
{
    if n < 10 {
        let mut s: String = String::new();
        s.push(digit(n));
        assert(s@ =~= seq![digit_char(n as nat)]);
        s
    } else {
        let mut s: String = decimal(n / 10);
        s.push(digit(n % 10));
        s
    }
}

/// The decimal numeral of an integer, with a minus sign before a negative one.
pub open spec fn integer_text(n: int) -> Seq<char> {
    if n < 0 {
        seq!['-'] + decimal_text((-n) as nat)
    } else {
        decimal_text(n as nat)
    }
}

/// The value of a character as a decimal digit.
pub open spec fn digit_value(c: char) -> Option<nat> {
    if '0' <= c <= '9' {
        Some((c as nat - '0' as nat) as nat)
    } else {
        None
    }
}

/// The value of a run of decimal digits, if it is one; an empty run is worth nothing.
pub open spec fn digits_value(s: Seq<char>) -> Option<nat>
    decreases s.len(),
{
    if s.len() == 0 {
        Some(0)
    } else {
        match (digits_value(s.drop_last()), digit_value(s.last())) {
            (Some(high), Some(low)) => Some(high * 10 + low),
            _ => None,
        }
    }
}

/// The number that a text writes: at least one decimal digit, after an optional plus sign.
pub open spec fn numeral_value(s: Seq<char>) -> Option<nat> {
    let digits = if s.len() > 0 && s[0] == '+' {
        s.skip(1)
    } else {
        s
    };
    if digits.len() == 0 {
        None
    } else {
        digits_value(digits)
    }
}

/// More digits never make a run worth less, nor turn what is no numeral into one.
proof fn lemma_digits_prefix(s: Seq<char>, n: int)
    requires
        0 <= n <= s.len(),
    ensures
        digits_value(s) is Some ==> digits_value(s.take(n)) is Some && digits_value(s.take(n))->0
            <= digits_value(s)->0,
    decreases s.len() - n,
{
    if n < s.len() {
        lemma_digits_prefix(s, n + 1);
        assert(s.take(n + 1).drop_last() =~= s.take(n));
    } else {
        assert(s.take(n) =~= s);
    }
}

/// Reads a `usize` numeral; `None` for what is no numeral or does not fit.
pub fn parse_usize(s: &str) -> (r: Option<usize>)
    ensures
        match numeral_value(s@) {
            Some(n) => if n <= usize::MAX {
                r == Some(n as usize)
            } else {
                r is None
            },
            None => r is None,
        },
{
    let x: Vec<char> = chars_of(s);
    let start: usize = if x.len() > 0 && x[0] == '+' { 1 } else { 0 };
    let ghost digits = x@.skip(start as int);
    assert(start == 0 ==> digits =~= x@);
    if start == x.len() {
        return None;
    }
    let mut i: usize = start;
    let mut value: usize = 0;
    assert(digits.take(0) =~= Seq::<char>::empty());
    while i < x.len()
        invariant
            start <= i <= x.len(),
            digits == x@.skip(start as int),
            digits_value(digits.take(i - start)) == Some(value as nat),
            digits.len() == x.len() - start,
            digits.len() > 0,
            numeral_value(s@) == digits_value(digits),
        decreases x.len() - i,
    {
        let c: char = x[i];
        let ghost k = i - start;
        assert(digits.take(k + 1).drop_last() =~= digits.take(k));
        assert(digits.take(k + 1).last() == c);
        proof {
            lemma_digits_prefix(digits, k + 1);
        }
        if c < '0' || '9' < c {
            return None;
        }
        let d: usize = (c as u32 - '0' as u32) as usize;
        match value.checked_mul(10) {
            None => {
                return None;
            },
            Some(scaled) => match scaled.checked_add(d) {
                None => {
                    return None;
                },
                Some(next) => {
                    value = next;
                },
            },
        }
        i += 1;
    }
    assert(digits.take(digits.len() as int) =~= digits);
    Some(value)
}

/// What `usize::from_str` says of a text that is no numeral or does not fit; nothing is
/// claimed of the words.
#[verifier::external_body]
pub(crate) fn describe_unparsed(s: &str) -> (r: String) {
    match s.parse::<usize>() {
        Ok(_) => String::new(),
        Err(e) => e.to_string(),
    }
}

/// The decimal numeral of a number reads as the number.
pub proof fn lemma_decimal_reads(n: nat)
    ensures
        numeral_value(decimal_text(n)) == Some(n),
{
    lemma_decimal_digits(n);
    let s = decimal_text(n);
    assert(s[0] != '+');
}

/// The decimal numeral of a number is made of digits, at least one, that are worth it.
pub proof fn lemma_decimal_digits(n: nat)
    ensures
        digits_value(decimal_text(n)) == Some(n),
        decimal_text(n).len() > 0,
        '0' <= decimal_text(n)[0] <= '9',
    decreases n,
{
    if n < 10 {
        let s = decimal_text(n);
        assert(s =~= seq![digit_char(n)]);
        assert(s.drop_last() =~= Seq::<char>::empty());
        assert(s.last() == digit_char(n));
        assert(digits_value(s.drop_last()) == Some(0nat));
    } else {
        lemma_decimal_digits(n / 10);
        let s = decimal_text(n);
        assert(s.drop_last() =~= decimal_text(n / 10));
        assert(s.last() == digit_char(n % 10));
    }
}

/// Two texts one after another.
pub fn join2(a: &str, b: &str) -> (r: String)
    ensures
        r@ == a@ + b@,
{
    let mut s: String = owned(a);
    s.append(b);
    s
}

/// Three texts one after another.
pub fn join3(a: &str, b: &str, c: &str) -> (r: String)
    ensures
        r@ == a@ + b@ + c@,
{
    let mut s: String = owned(a);
    s.append(b);
    s.append(c);
    s
}

/// Five texts one after another.
pub fn join5(a: &str, b: &str, c: &str, d: &str, e: &str) -> (r: String)
    ensures
        r@ == a@ + b@ + c@ + d@ + e@,
{
    let mut s: String = join3(a, b, c);
    s.append(d);
    s.append(e);
    s
}

} // verus!
