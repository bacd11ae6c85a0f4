//! What a PostgreSQL client is told of a statement.
use crate::entries::{lookup, with_entry, without_entry, TextMap};
use crate::text;
use crate::text::{numeral_value, texts, words};
use vstd::prelude::*;

verus! {

/// The address that is listened on by default.
pub const DEFAULT_ADDR: &'static str = "127.0.0.1:15432";

/// A command tag: what was done, and to how many rows.
#[derive(Debug)]
pub struct CommandTag {
    pub command: String,
    pub oid: Option<u32>,
    pub rows: Option<usize>,
}

/// The model of a command tag.
#[verifier::ext_equal]
pub struct TagModel {
    pub command: Seq<char>,
    pub oid: Option<u32>,
    pub rows: Option<usize>,
}

impl View for CommandTag {
    type V = TagModel;

    open spec fn view(&self) -> TagModel {
        TagModel { command: self.command@, oid: self.oid, rows: self.rows }
    }
}

/// The number that a text writes if it fits, and otherwise 0.
pub open spec fn number_or_zero(s: Seq<char>, max: nat) -> nat {
    match numeral_value(s) {
        Some(n) => if n <= max {
            n
        } else {
            0
        },
        None => 0,
    }
}

/// Whether a text writes a number of rows.
pub open spec fn is_count(s: Seq<char>) -> bool {
    numeral_value(s) matches Some(n) && n <= usize::MAX
}

/// The tag that a text stands for: `INSERT` with an object and a number of rows, another
/// command with a number of rows, or the text itself.
pub open spec fn tag_of(tag: Seq<char>) -> TagModel {
    let parts = words(tag);
    if parts.len() == 3 && parts[0] == "INSERT"@ {
        TagModel {
            command: "INSERT"@,
            oid: Some(number_or_zero(parts[1], u32::MAX as nat) as u32),
            rows: Some(number_or_zero(parts[2], usize::MAX as nat) as usize),
        }
    } else if parts.len() == 2 && is_count(parts[1]) {
        TagModel {
            command: parts[0],
            oid: None,
            rows: Some(number_or_zero(parts[1], usize::MAX as nat) as usize),
        }
    } else {
        TagModel { command: tag, oid: None, rows: None }
    }
}

/// The tag that a text stands for.
pub fn make_tag(tag: &str) -> (r: CommandTag)
    ensures
        r@ == tag_of(tag@),
{
    let parts: Vec<String> = text::split_words(tag);
    assert(texts(parts@) == words(tag@));
    assert(parts@.len() == words(tag@).len());
    assert(forall|i: int| 0 <= i < parts@.len() ==> #[trigger] texts(parts@)[i] == parts@[i]@);
    if parts.len() == 3 && text::same_text(parts[0].as_str(), "INSERT") {
        assert(texts(parts@)[0] == parts@[0]@ && texts(parts@)[1] == parts@[1]@ && texts(
            parts@,
        )[2] == parts@[2]@);
        let oid: u32 = match text::parse_usize(parts[1].as_str()) {
            Some(n) => if n <= 0xffff_ffff {
                n as u32
            } else {
                0
            },
            None => 0,
        };
        let rows: usize = match text::parse_usize(parts[2].as_str()) {
            Some(n) => n,
            None => 0,
        };
        return CommandTag { command: text::owned("INSERT"), oid: Some(oid), rows: Some(rows) };
    }
    if parts.len() == 2 {
        assert(texts(parts@)[0] == parts@[0]@ && texts(parts@)[1] == parts@[1]@);
        match text::parse_usize(parts[1].as_str()) {
            Some(n) => {
                return CommandTag { command: parts[0].clone(), oid: None, rows: Some(n) };
            },
            None => {},
        }
    }
    assert(parts@.len() == 3 ==> texts(parts@)[0] == parts@[0]@);
    assert(parts@.len() == 2 ==> texts(parts@)[1] == parts@[1]@);
    CommandTag { command: text::owned(tag), oid: None, rows: None }
}

/// What a bound parameter is read as.
#[derive(Clone, Copy, PartialEq, Eq, Structural, Debug)]
pub enum ParamKind {
    Bool,
    Int2,
    Int4,
    Int8,
    Float4,
    Float8,
    Text,
}

/// What a bound parameter of a type is read as; types without a reading of their own are
/// read as text.
pub fn param_kind(oid: u32) -> (r: ParamKind)
    ensures
        r == (if oid == 16 {
            ParamKind::Bool
        } else if oid == 21 {
            ParamKind::Int2
        } else if oid == 23 {
            ParamKind::Int4
        } else if oid == 20 {
            ParamKind::Int8
        } else if oid == 700 {
            ParamKind::Float4
        } else if oid == 701 {
            ParamKind::Float8
        } else {
            ParamKind::Text
        }),
{
    match oid {
        16 => ParamKind::Bool,
        21 => ParamKind::Int2,
        23 => ParamKind::Int4,
        20 => ParamKind::Int8,
        700 => ParamKind::Float4,
        701 => ParamKind::Float8,
        _ => ParamKind::Text,
    }
}

/// What a result is kept under between being described and being fetched: the statement
/// and its parameters.
pub fn cache_key(sql: &str, params: &str) -> (r: String)
    ensures
        r@ == sql@ + seq!['\u{1}'] + params@,
{
    let mut key: String = text::owned(sql);
    key.push('\u{1}');
    key.append(params);
    assert(key@ =~= sql@ + seq!['\u{1}'] + params@);
    key
}

/// Results that were computed to be described, until they are fetched.
#[derive(Debug)]
pub struct DescribeCache<T> {
    results: TextMap<T>,
}

impl<T> DescribeCache<T> {
    /// The results by key.
    pub closed spec fn entries(self) -> Seq<(Seq<char>, T)> {
        self.results@
    }

    /// Nothing was described.
    pub fn new() -> (r: DescribeCache<T>)
        ensures
            r.entries() == Seq::<(Seq<char>, T)>::empty(),
    {
        DescribeCache { results: TextMap::new() }
    }

    /// Keeps the result of a statement that was described.
    pub fn described(&mut self, key: String, result: T)
        ensures
            final(self).entries() == with_entry(old(self).entries(), key@, result),
    {
        self.results.insert(key, result);
    }

    /// Takes the result of a statement that was described; if there is none, the statement
    /// is to be run.
    pub fn fetch(&mut self, key: &str) -> (r: Option<T>)
        ensures
            r == lookup(old(self).entries(), key@),
            final(self).entries() == without_entry(old(self).entries(), key@),
    {
        self.results.remove(key)
    }
}

/// A statement that was described is run once: its result is there to be fetched, and once
/// it was, it is gone.
pub proof fn lemma_described_is_fetched_once<T>(
    entries: Seq<(Seq<char>, T)>,
    key: Seq<char>,
    result: T,
)
    requires
        crate::entries::keys_ordered(entries),
    ensures
        lookup(with_entry(entries, key, result), key) == Some(result),
        lookup(without_entry(with_entry(entries, key, result), key), key) is None,
{
    crate::entries::lemma_lookup_with_entry(entries, key, result, key);
    crate::entries::lemma_with_entry_ordered(entries, key, result);
    crate::entries::lemma_lookup_without_entry(with_entry(entries, key, result), key, key);
}

} // verus!
