//! Locating a fixture inside its rule's definition file, as a byte range.
use vstd::prelude::*;
use crate::rule::Expectation;
use vstd::string::StringSliceAdditionalSpecFns;
use vstd::utf8::encode_utf8;

verus! {

/// The 1-based first and last line of each element of the sequence found in
/// the first YAML document of the UTF-8 text `text` under key `outer`, then
/// key `inner`; `None` where the text has no such sequence.
pub uninterp spec fn yaml_lines_under(text: Seq<u8>, outer: Seq<char>, inner: Seq<char>) -> Option<
    Seq<(int, int)>,
>;

/// The most bytes that may open a nesting level (`[`, `{`, `-`, `?`, `:`):
/// no YAML node nests deeper than their number, and the loader walks the
/// nodes it builds by recursion.
pub const NESTING_LIMIT: usize = 1024;

pub open spec fn opens_level(c: u8) -> bool {
    c == 91u8 || c == 123u8 || c == 45u8 || c == 63u8 || c == 58u8
}

/// How many bytes of `b` may open a nesting level.
pub open spec fn level_openers(b: Seq<u8>) -> nat
    decreases b.len(),
{
    if b.len() == 0 {
        0
    } else {
        level_openers(b.drop_last()) + if opens_level(b.last()) {
            1nat
        } else {
            0nat
        }
    }
}

/// Bytes from which no YAML scalar can read `<<`, the merge key whose
/// sequence value the loader does not handle: no `<`, and no `3` followed by
/// `c` or `C` (the end of every escape that spells `<`).
pub open spec fn merge_free(b: Seq<u8>) -> bool {
    forall|i: int|
        0 <= i < b.len() ==> #[trigger] b[i] != 60u8 && (b[i] == 51u8 && i + 1 < b.len() ==> b[i + 1]
            != 99u8 && b[i + 1] != 67u8)
}

/// The byte that stands at `i` in the text handed to the loader: `<` becomes
/// `x`, and a `c` or `C` after a `3` becomes `0`. Newlines and the YAML
/// indicators stay where they are, so the lines and the structure do too.
pub open spec fn neutral_byte(b: Seq<u8>, i: int) -> u8 {
    if b[i] == 60u8 {
        120u8
    } else if (b[i] == 99u8 || b[i] == 67u8) && i > 0 && b[i - 1] == 51u8 {
        48u8
    } else {
        b[i]
    }
}

pub open spec fn neutralized(b: Seq<u8>) -> Seq<u8> {
    Seq::new(b.len(), |i: int| neutral_byte(b, i))
}

/// Relies on located_yaml: the bytes are read as UTF-8 text,
/// `YamlLoader::load_from_str` parses it, the first document is taken,
/// `Yaml::get_string_key` looks up `outer` and then `inner`, and
/// `Yaml::lines_range` gives each element's lines when the value found is a
/// sequence. The loader panics on a `<<` key with a sequence value, and
/// recurses once per level of nesting.
#[verifier::external_body]
fn section_line_ranges(text: &Vec<u8>, outer: &str, inner: &str) -> (r: Option<Vec<(usize, usize)>>)
    requires
        merge_free(text@),
        level_openers(text@) <= NESTING_LIMIT,
    ensures
        match r {
            Some(v) => yaml_lines_under(text@, outer@, inner@) == Some(
                v@.map_values(|p: (usize, usize)| (p.0 as int, p.1 as int)),
            ),
            None => yaml_lines_under(text@, outer@, inner@) is None,
        },
{
    let text = std::str::from_utf8(text).ok()?;
    let loader = located_yaml::YamlLoader::load_from_str(text).ok()?;
    let doc = loader.docs.into_iter().next()?;
    let section = doc.get_string_key(outer)?.get_string_key(inner)?;
    match section.yaml {
        located_yaml::YamlElt::Array(items) => Some(items.iter().map(|e| e.lines_range()).collect()),
        _ => None,
    }
}

/// Why a fixture could not be located in its rule file.
#[derive(Clone, Copy, Debug, PartialEq, Eq, Structural)]
pub enum LocateError {
    /// The text nests deeper than the YAML loader is given.
    Unsupported,
    /// The first document has no `tests` mapping with a `pass` / `fail` sequence.
    NoSection,
    /// The sequence has fewer elements than the index asks for.
    NoFixture,
    /// The text has fewer newlines than the lines ask for.
    NoLine,
}

pub open spec fn tests_key() -> Seq<char> {
    seq!['t', 'e', 's', 't', 's']
}

/// The key of the fixtures of a kind.
pub open spec fn section_key(kind: Expectation) -> Seq<char> {
    match kind {
        Expectation::Pass => seq!['p', 'a', 's', 's'],
        Expectation::Fail => seq!['f', 'a', 'i', 'l'],
    }
}

/// The byte offsets of the newline bytes of `b`, in order.
pub open spec fn newline_offsets(b: Seq<u8>) -> Seq<int>
    decreases b.len(),
{
    if b.len() == 0 {
        Seq::empty()
    } else if b.last() == 10u8 {
        newline_offsets(b.drop_last()).push(b.len() - 1)
    } else {
        newline_offsets(b.drop_last())
    }
}

/// The byte range from the newline that ends line `first` to the one that
/// ends line `last` (lines counted from 1), if the text has them.
pub open spec fn lines_to_bytes(b: Seq<u8>, first: int, last: int) -> Option<(int, int)> {
    let nl = newline_offsets(b);
    if 1 <= first <= last <= nl.len() {
        Some((nl[first - 1], nl[last - 1]))
    } else {
        None
    }
}

proof fn lemma_newline_offsets(b: Seq<u8>)
    ensures
        forall|k: int| 0 <= k < newline_offsets(b).len() ==> {
            &&& 0 <= #[trigger] newline_offsets(b)[k] < b.len()
            &&& b[newline_offsets(b)[k]] == 10u8
        },
        forall|k: int, l: int| 0 <= k < l < newline_offsets(b).len() ==> #[trigger] newline_offsets(b)[k] < #[trigger] newline_offsets(b)[l],
    decreases b.len(),
{
    if b.len() > 0 {
        let d = b.drop_last();
        lemma_newline_offsets(d);
        let p = newline_offsets(d);
        assert forall|k: int| 0 <= k < p.len() implies b[#[trigger] p[k]] == 10u8 && p[k] < b.len() - 1 by {
            assert(d[p[k]] == 10u8);
        }
    }
}

/// The byte offsets of all newlines of `text`.
fn newline_positions(text: &str) -> (r: Vec<usize>)
    ensures
        r@.map_values(|x: usize| x as int) == newline_offsets(text.spec_bytes()),
{
    let b = text.as_bytes();
    let mut out: Vec<usize> = Vec::new();
    let mut i: usize = 0;
    while i < b.len()
        invariant
            b@ == text.spec_bytes(),
            0 <= i <= b@.len(),
            out@.map_values(|x: usize| x as int) == newline_offsets(b@.take(i as int)),
        decreases b@.len() - i,
    {
        assert(b@.take(i + 1).drop_last() =~= b@.take(i as int));
        if b[i] == 10u8 {
            let ghost prev = out@;
            out.push(i);
            assert(out@.map_values(|x: usize| x as int) =~= prev.map_values(|x: usize| x as int).push(i as int));
        }
        i = i + 1;
    }
    assert(b@.take(i as int) =~= b@);
    out
}

/// The byte range that lines `first` to `last` (1-based, inclusive) of a
/// structured document give: the offsets of the newlines that end lines
/// `first` and `last`.
pub fn span_of_lines(text: &str, first: usize, last: usize) -> (r: Result<(usize, usize), LocateError>)
    ensures
        match lines_to_bytes(text.spec_bytes(), first as int, last as int) {
            Some((s, e)) => r matches Ok((a, b)) && a as int == s && b as int == e,
            None => r == Err::<(usize, usize), LocateError>(LocateError::NoLine),
        },
        r matches Ok((s, e)) ==> s <= e < text.spec_bytes().len() && text.spec_bytes()[s as int] == 10u8
            && text.spec_bytes()[e as int] == 10u8,
{
    let nl = newline_positions(text);
    proof {
        lemma_newline_offsets(text.spec_bytes());
    }
    let ghost offs = newline_offsets(text.spec_bytes());
    if 1 <= first && first <= last && last <= nl.len() {
        assert(offs[first - 1] == nl@[first - 1] as int);
        assert(offs[last - 1] == nl@[last - 1] as int);
        if first < last {
            assert(offs[first - 1] < offs[last - 1]);
        }
        Ok((nl[first - 1], nl[last - 1]))
    } else {
        Err(LocateError::NoLine)
    }
}

/// Where fixture `index` of the given kind lies in a rule file's text: the
/// byte range between the newlines that end the first and the last line of
/// element `index` of `tests.pass` or `tests.fail`.
pub open spec fn located(text: Seq<char>, kind: Expectation, index: int) -> Result<(int, int), LocateError> {
    let b = encode_utf8(text);
    if level_openers(b) > NESTING_LIMIT {
        Err(LocateError::Unsupported)
    } else {
        match yaml_lines_under(neutralized(b), tests_key(), section_key(kind)) {
            None => Err(LocateError::NoSection),
            Some(ls) => if index >= ls.len() {
                Err(LocateError::NoFixture)
            } else {
                match lines_to_bytes(b, ls[index].0, ls[index].1) {
                    Some(p) => Ok(p),
                    None => Err(LocateError::NoLine),
                }
            },
        }
    }
}

/// Locating a fixture is a function of the text, the kind and the index
/// alone: the same text gives the same range, or the same error, on every call.
pub proof fn span_locator_is_deterministic(a: &str, b: &str, kind: Expectation, index: usize)
    requires
        a@ == b@,
    ensures
        located(a@, kind, index as int) == located(b@, kind, index as int),
{
}

fn count_level_openers(b: &[u8]) -> (r: usize)
    ensures
        r == level_openers(b@),
{
    let mut n: usize = 0;
    let mut i: usize = 0;
    while i < b.len()
        invariant
            0 <= i <= b@.len(),
            n == level_openers(b@.take(i as int)),
            n <= i,
        decreases b@.len() - i,
    {
        assert(b@.take(i + 1).drop_last() =~= b@.take(i as int));
        if b[i] == 91u8 || b[i] == 123u8 || b[i] == 45u8 || b[i] == 63u8 || b[i] == 58u8 {
            n = n + 1;
        }
        i = i + 1;
    }
    assert(b@.take(i as int) =~= b@);
    n
}

fn neutralize(b: &[u8]) -> (r: Vec<u8>)
    ensures
        r@ == neutralized(b@),
        merge_free(r@),
        level_openers(r@) == level_openers(b@),
{
    let mut out: Vec<u8> = Vec::new();
    let mut i: usize = 0;
    while i < b.len()
        invariant
            0 <= i <= b@.len(),
            out@ == neutralized(b@).take(i as int),
            level_openers(out@) == level_openers(b@.take(i as int)),
        decreases b@.len() - i,
    {
        let c = b[i];
        let d = if c == 60u8 {
            120u8
        } else if (c == 99u8 || c == 67u8) && i > 0 && b[i - 1] == 51u8 {
            48u8
        } else {
            c
        };
        assert(d == neutral_byte(b@, i as int));
        let ghost prev = out@;
        out.push(d);
        assert(out@.drop_last() =~= prev);
        assert(b@.take(i + 1).drop_last() =~= b@.take(i as int));
        assert(out@ =~= neutralized(b@).take(i + 1));
        i = i + 1;
    }
    assert(b@.take(i as int) =~= b@);
    assert(out@ =~= neutralized(b@));
    assert forall|k: int| 0 <= k < out@.len() implies #[trigger] out@[k] != 60u8 && (out@[k] == 51u8 && k + 1
        < out@.len() ==> out@[k + 1] != 99u8 && out@[k + 1] != 67u8) by {
        assert(out@[k] == neutral_byte(b@, k));
        if k + 1 < out@.len() {
            assert(out@[k + 1] == neutral_byte(b@, k + 1));
        }
    }
    out
}

/// Locates fixture `index` of the given kind inside the raw text of its rule
/// file.
pub fn span_of_test_n(text: &str, kind: Expectation, index: usize) -> (r: Result<(usize, usize), LocateError>)
    ensures
        match located(text@, kind, index as int) {
            Ok((s, e)) => r matches Ok((a, b)) && a as int == s && b as int == e,
            Err(x) => r == Err::<(usize, usize), LocateError>(x),
        },
        r matches Ok((s, e)) ==> s <= e < text.spec_bytes().len() && text.spec_bytes()[s as int] == 10u8
            && text.spec_bytes()[e as int] == 10u8,
{
    let bytes = text.as_bytes();
    if count_level_openers(bytes) > NESTING_LIMIT {
        return Err(LocateError::Unsupported);
    }
    let neutral = neutralize(bytes);
    proof {
        reveal_strlit("tests");
        reveal_strlit("pass");
        reveal_strlit("fail");
        assert("tests"@ =~= tests_key());
        assert("pass"@ =~= section_key(Expectation::Pass));
        assert("fail"@ =~= section_key(Expectation::Fail));
    }
    let ranges = match kind {
        Expectation::Pass => section_line_ranges(&neutral, "tests", "pass"),
        Expectation::Fail => section_line_ranges(&neutral, "tests", "fail"),
    };
    let ranges = match ranges {
        Some(v) => v,
        None => return Err(LocateError::NoSection),
    };
    if index >= ranges.len() {
        return Err(LocateError::NoFixture);
    }
    let (first, last) = ranges[index];
    span_of_lines(text, first, last)
}

} // verus!
