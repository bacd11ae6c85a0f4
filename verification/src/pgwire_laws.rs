//! What command tags, parameters and described results are.
use crate::entries::{
    keys_ordered, lemma_lookup_with_entry, lemma_lookup_without_entry, lookup,
};
use crate::pgwire::{cache_key, make_tag, param_kind, CommandTag, DescribeCache, ParamKind};
use crate::text::{
    decimal_text, digits_value, is_blank, lemma_decimal_digits, lemma_decimal_reads, numeral_value,
    word_run, words,
};
use vstd::prelude::*;

verus! {

/// Whether a text is a word: some characters, none of them white space.
pub open spec fn is_word(s: Seq<char>) -> bool {
    s.len() > 0 && forall|i: int| 0 <= i < s.len() ==> !is_blank(#[trigger] s[i])
}

/// A word behind a text that ends in white space, or behind nothing, is its last word.
proof fn lemma_word_behind(before: Seq<char>, word: Seq<char>)
    requires
        before.len() == 0 || is_blank(before.last()),
        is_word(word),
    ensures
        word_run(before + word) == (words(before).push(word), true),
    decreases word.len(),
{
    let whole = before + word;
    assert(whole.drop_last() =~= before + word.drop_last());
    if word.len() == 1 {
        assert(whole.drop_last() =~= before);
        assert(word =~= seq![word.last()]);
    } else {
        lemma_word_behind(before, word.drop_last());
        assert(words(before).push(word.drop_last()).drop_last() =~= words(before));
        assert(word.drop_last().push(word.last()) =~= word);
    }
}

/// The words of a text that is a word are the word. White space and a word behind a text make
/// one word more.
pub proof fn lemma_words(before: Seq<char>, space: char, word: Seq<char>)
    requires
        is_blank(space),
        is_word(word),
    ensures
        words(word) == seq![word],
        words(before.push(space)) == words(before),
        words(before.push(space) + word) == words(before).push(word),
{
    let empty = Seq::<char>::empty();
    lemma_word_behind(empty, word);
    assert(empty + word =~= word);
    assert(words(empty).push(word) =~= seq![word]);
    assert(before.push(space).drop_last() =~= before);
    lemma_word_behind(before.push(space), word);
}

/// Every word of a text is a word.
pub proof fn lemma_words_are_words(s: Seq<char>, i: int)
    requires
        0 <= i < words(s).len(),
    ensures
        is_word(words(s)[i]),
    decreases s.len(),
{
    if s.len() > 0 {
        let front = s.drop_last();
        let (done, open) = word_run(front);
        lemma_open_has_word(front);
        if !is_blank(s.last()) && i == words(s).len() - 1 {
            if open {
                lemma_words_are_words(front, done.len() - 1);
            }
        } else {
            lemma_words_are_words(front, i);
        }
    }
}

/// Where a word is open there is one.
proof fn lemma_open_has_word(s: Seq<char>)
    ensures
        word_run(s).1 ==> word_run(s).0.len() > 0,
    decreases s.len(),
{
    if s.len() > 0 {
        lemma_open_has_word(s.drop_last());
    }
}

/// Digits are no white space.
proof fn lemma_digits_not_blank(s: Seq<char>)
    requires
        digits_value(s) is Some,
    ensures
        forall|i: int| 0 <= i < s.len() ==> !is_blank(#[trigger] s[i]),
    decreases s.len(),
{
    if s.len() > 0 {
        lemma_digits_not_blank(s.drop_last());
        assert forall|i: int| 0 <= i < s.len() implies !is_blank(#[trigger] s[i]) by {
            if i < s.len() - 1 {
                assert(s[i] == s.drop_last()[i]);
            }
        }
    }
}

/// A numeral is a word.
proof fn lemma_decimal_is_word(n: nat)
    ensures
        is_word(decimal_text(n)),
{
    lemma_decimal_digits(n);
    lemma_digits_not_blank(decimal_text(n));
}

/// The tag of a command and a number tells both. That of an insertion tells its object too.
pub proof fn lemma_counted_tag(
    command: Seq<char>,
    object: u32,
    rows: usize,
    one: &str,
    counted: CommandTag,
    other: &str,
    inserted: CommandTag,
)
    requires
        is_word(command),
        one@ == command + seq![' '] + decimal_text(rows as nat),
        other@ == "INSERT "@ + decimal_text(object as nat) + seq![' '] + decimal_text(rows as nat),
        call_ensures(make_tag, (one,), counted),
        call_ensures(make_tag, (other,), inserted),
    ensures
        counted.command@ == command,
        counted.oid is None,
        counted.rows == Some(rows),
        inserted.command@ == "INSERT"@,
        inserted.oid == Some(object),
        inserted.rows == Some(rows),
{
    let count = decimal_text(rows as nat);
    let digits = decimal_text(object as nat);
    lemma_decimal_is_word(rows as nat);
    lemma_decimal_is_word(object as nat);
    lemma_decimal_reads(rows as nat);
    lemma_decimal_reads(object as nat);
    assert(is_blank(' '));
    lemma_words(command, ' ', count);
    lemma_words(command, ' ', command);
    assert(command + seq![' '] =~= command.push(' '));
    reveal_strlit("INSERT ");
    reveal_strlit("INSERT");
    assert("INSERT "@ =~= "INSERT"@.push(' '));
    lemma_words("INSERT"@, ' ', "INSERT"@);
    lemma_words("INSERT"@, ' ', digits);
    let head = "INSERT "@ + digits;
    assert(head + seq![' '] =~= head.push(' '));
    lemma_words(head, ' ', count);
}

/// The tag of a text that is one word, or ends in a word that is no number, is the text itself.
pub proof fn lemma_plain_tag(tag: &str, r: CommandTag)
    requires
        call_ensures(make_tag, (tag,), r),
        words(tag@).len() < 2 || words(tag@).len() > 3 || (words(tag@).len() == 2 && numeral_value(
            words(tag@)[1],
        ) is None) || (words(tag@).len() == 3 && words(tag@)[0] != "INSERT"@),
    ensures
        r.command@ == tag@,
        r.oid is None,
        r.rows is None,
{
}

/// Each type that is read in its own way is so, and every other one as text.
pub proof fn lemma_read_parameters(oid: u32, r: ParamKind)
    requires
        call_ensures(param_kind, (oid,), r),
    ensures
        r == ParamKind::Bool <==> oid == 16,
        r == ParamKind::Int8 <==> oid == 20,
        r == ParamKind::Int2 <==> oid == 21,
        r == ParamKind::Int4 <==> oid == 23,
        r == ParamKind::Float4 <==> oid == 700,
        r == ParamKind::Float8 <==> oid == 701,
{
}

/// Statements with their parameters are told apart, where no statement holds the character that
/// stands between them.
pub proof fn lemma_cache_keys(
    sql: &str,
    params: &str,
    key: String,
    sql2: &str,
    params2: &str,
    key2: String,
)
    requires
        call_ensures(cache_key, (sql, params), key),
        call_ensures(cache_key, (sql2, params2), key2),
        !sql@.contains('\u{1}'),
        !sql2@.contains('\u{1}'),
    ensures
        key@ == key2@ <==> sql@ == sql2@ && params@ == params2@,
{
    let (a, b) = (sql@.len() as int, sql2@.len() as int);
    if key@ == key2@ {
        assert(key@[a] == '\u{1}' && key2@[b] == '\u{1}');
        if a < b {
            assert(key2@[a] == sql2@[a]);
        }
        if b < a {
            assert(key@[b] == sql@[b]);
        }
        assert(sql@ =~= key@.take(a));
        assert(sql2@ =~= key2@.take(b));
        assert(params@ =~= key@.skip(a + 1));
        assert(params2@ =~= key2@.skip(b + 1));
    }
}

/// A result that was described is fetched once; others stay as they are.
pub proof fn lemma_fetched_result<T>(
    cache: &mut DescribeCache<T>,
    key: String,
    result: T,
    later: &mut DescribeCache<T>,
    asked: &str,
    r: Option<T>,
    other: Seq<char>,
)
    requires
        call_ensures(DescribeCache::<T>::described, (cache, key, result), ()),
        keys_ordered(final(cache).entries()),
        old(later).entries() == final(cache).entries(),
        call_ensures(DescribeCache::<T>::fetch, (later, asked), r),
    ensures
        asked@ == key@ ==> r == Some(result),
        asked@ != key@ ==> r == lookup(old(cache).entries(), asked@),
        lookup(final(later).entries(), asked@) is None,
        other != asked@ ==> lookup(final(later).entries(), other) == lookup(
            final(cache).entries(),
            other,
        ),
{
    lemma_lookup_with_entry(old(cache).entries(), key@, result, asked@);
    lemma_lookup_without_entry(final(cache).entries(), asked@, asked@);
    lemma_lookup_without_entry(final(cache).entries(), asked@, other);
}

} // verus!
