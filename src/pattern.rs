//! Compiled patterns, backed by the `regex` crate.
use vstd::prelude::*;
use crate::types::{MatchPosition, spans_of};

verus! {

/// regex::Regex, a compiled regular expression, held opaque.
#[verifier::external_type_specification]
#[verifier::external_body]
pub struct ExRegex(regex::Regex);

/// regex::Error, why a pattern was refused, held opaque.
#[verifier::external_type_specification]
#[verifier::external_body]
pub struct ExRegexError(regex::Error);

/// Relies on regex::Regex's Clone: the copy matches exactly what the regex it copies matches.
#[verifier::external_body]
fn clone_regex(re: &regex::Regex) -> regex::Regex {
    re.clone()
}

/// Whether the regex engine accepts `pattern` (syntax and size limits).
pub uninterp spec fn regex_compiles(pattern: Seq<char>) -> bool;

/// The successive non-overlapping matches of `pattern` in `haystack`, as
/// byte offsets `(start, end)`.
pub uninterp spec fn regex_spans(pattern: Seq<char>, haystack: Seq<char>) -> Seq<(int, int)>;

/// The UTF-8 encoding of a text.
pub open spec fn utf8_of(s: Seq<char>) -> Seq<u8> {
    vstd::utf8::encode_utf8(s)
}

/// Spans that lie in order, without overlap, on character boundaries of `text`.
pub open spec fn spans_well_formed(spans: Seq<(int, int)>, text: Seq<char>) -> bool {
    &&& forall|i: int| #![trigger spans[i]] 0 <= i < spans.len() ==> {
        &&& 0 <= spans[i].0 <= spans[i].1 <= utf8_of(text).len()
        &&& vstd::utf8::is_char_boundary(utf8_of(text), spans[i].0)
        &&& vstd::utf8::is_char_boundary(utf8_of(text), spans[i].1)
    }
    &&& forall|i: int| #![trigger spans[i]] 0 < i < spans.len() ==> spans[i - 1].1 <= spans[i].0
}

/// Byte offset pairs as integer spans.
pub open spec fn offset_spans(r: Seq<(usize, usize)>) -> Seq<(int, int)> {
    r.map_values(|o: (usize, usize)| (o.0 as int, o.1 as int))
}

/// Relies on regex::Regex::new: whether it succeeds depends on the pattern
/// text alone.
#[verifier::external_body]
fn compile_regex(text: &str) -> (r: Result<regex::Regex, regex::Error>)
    ensures
        r is Ok <==> regex_compiles(text@),
{
    regex::Regex::new(text)
}

/// Relies on regex::Regex::find_iter with Match::start and Match::end: the
/// matches of the pattern that the regex was built from come in order, do not
/// overlap, and start and end on character boundaries of the haystack.
#[verifier::external_body]
fn find_spans(p: &Pattern, haystack: &str) -> (r: Vec<(usize, usize)>)
    ensures
        offset_spans(r@) == regex_spans(p@, haystack@),
        spans_well_formed(offset_spans(r@), haystack@),
{
    p.regex.find_iter(haystack).map(|m| (m.start(), m.end())).collect()
}

/// A pattern text together with the regex compiled from it.
#[derive(Debug)]
pub struct Pattern {
    text: String,
    regex: regex::Regex,
}

impl View for Pattern {
    type V = Seq<char>;

    closed spec fn view(&self) -> Seq<char> {
        self.text@
    }
}

impl Pattern {
    /// Compiles `text`; fails exactly when the regex engine refuses it.
    pub fn compile(text: &str) -> (r: Result<Pattern, regex::Error>)
        ensures
            r is Ok <==> regex_compiles(text@),
            r matches Ok(p) ==> p@ == text@,
    {
        match compile_regex(text) {
            Ok(regex) => Ok(Pattern { text: text.to_owned(), regex }),
            Err(e) => Err(e),
        }
    }

    /// The text that this pattern was compiled from.
    pub fn as_str(&self) -> (r: &str)
        ensures
            r@ == self@,
    {
        self.text.as_str()
    }

    /// A copy of this pattern.
    pub fn duplicate(&self) -> (r: Pattern)
        ensures
            r@ == self@,
    {
        Pattern { text: self.text.clone(), regex: clone_regex(&self.regex) }
    }

    /// All matches of this pattern in `line`, in order.
    pub fn find_all(&self, line: &str) -> (r: Vec<MatchPosition>)
        requires
            utf8_of(line@).len() <= u32::MAX,
        ensures
            spans_of(r@) == regex_spans(self@, line@),
            spans_well_formed(spans_of(r@), line@),
    {
        let found = find_spans(self, line);
        let ghost spans = regex_spans(self@, line@);
        proof {
            assert forall|j: int| 0 <= j < spans.len() implies 0 <= #[trigger] spans[j].0 <= spans[j].1 <= u32::MAX by {
            }
        }
        let mut out: Vec<MatchPosition> = Vec::new();
        let mut i: usize = 0;
        while i < found.len()
            invariant
                offset_spans(found@) == spans,
                forall|j: int| 0 <= j < spans.len() ==> 0 <= #[trigger] spans[j].0 <= spans[j].1 <= u32::MAX,
                0 <= i <= found@.len(),
                out@.len() == i,
                forall|j: int| 0 <= j < i ==> (#[trigger] out@[j]).start as int == spans[j].0 && out@[j].end as int == spans[j].1,
            decreases found@.len() - i,
        {
            let (start, end) = found[i];
            assert(offset_spans(found@)[i as int] == (start as int, end as int));
            out.push(MatchPosition { start: start as u32, end: end as u32 });
            i = i + 1;
        }
        proof {
            assert forall|j: int| 0 <= j < spans.len() implies #[trigger] spans_of(out@)[j] == spans[j] by {
                assert(out@[j].start as int == spans[j].0);
            }
            assert(spans_of(out@) =~= spans);
        }
        out
    }
}

} // verus!
