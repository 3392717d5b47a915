use vstd::prelude::*;
use vstd::string::*;
use crate::entry::is_document;

verus! {

/// A character of the Unicode `White_Space` property.
pub open spec fn is_white_space(c: char) -> bool {
    ||| '\u{9}' <= c <= '\u{d}'
    ||| c == ' '
    ||| c == '\u{85}'
    ||| c == '\u{a0}'
    ||| c == '\u{1680}'
    ||| '\u{2000}' <= c <= '\u{200a}'
    ||| c == '\u{2028}'
    ||| c == '\u{2029}'
    ||| c == '\u{202f}'
    ||| c == '\u{205f}'
    ||| c == '\u{3000}'
}

/// The text with every maximal run of white space replaced by one space.
pub open spec fn collapse_whitespace(s: Seq<char>) -> Seq<char>
    decreases s.len(),
{
    if s.len() == 0 {
        s
    } else {
        let p = collapse_whitespace(s.drop_last());
        let c = s.last();
        if !is_white_space(c) {
            p.push(c)
        } else if s.len() >= 2 && is_white_space(s[s.len() - 2]) {
            p
        } else {
            p.push(' ')
        }
    }
}

/// The first `max` characters of the text, or all of it where it is shorter.
pub open spec fn truncated(s: Seq<char>, max: nat) -> Seq<char> {
    if s.len() > max {
        s.take(max as int)
    } else {
        s
    }
}

/// Extracted text as it is handed to the prompt: white space collapsed, then
/// cut to at most `max` characters.
pub open spec fn normalized(raw: Seq<char>, max: nat) -> Seq<char> {
    truncated(collapse_whitespace(raw), max)
}

/// Relies on regex::Regex::new and Regex::replace_all with the pattern `\s+`
/// (Unicode `White_Space`, greedy): every maximal run of white space is
/// replaced by one space, and nothing else changes.
#[verifier::external_body]
fn collapse_runs(s: &str) -> (r: String)
    ensures
        r@ == collapse_whitespace(s@),
{
    regex::Regex::new("\\s+").unwrap().replace_all(s, " ").into_owned()
}

/// Collapses the white space of extracted text and cuts it to at most
/// `max_length` characters.
pub fn normalize_content(raw: &str, max_length: usize) -> (r: String)
    ensures
        r@ == normalized(raw@, max_length as nat),
{
    let collapsed = collapse_runs(raw);
    let n = collapsed.as_str().unicode_len();
    if n > max_length {
        String::from_str(collapsed.as_str().substring_char(0, max_length))
    } else {
        collapsed
    }
}

/// The result of reading a file's content.
#[derive(Debug)]
pub enum ExtractionOutcome {
    /// The normalised text; empty for a file of an unsupported type.
    Content(String),
    /// The document could not be read, for the given reason.
    Failure(String),
}

/// The model of an [`ExtractionOutcome`].
pub enum Extracted {
    Content(Seq<char>),
    Failure(Seq<char>),
}

impl View for ExtractionOutcome {
    type V = Extracted;

    open spec fn view(&self) -> Extracted {
        match self {
            ExtractionOutcome::Content(s) => Extracted::Content(s@),
            ExtractionOutcome::Failure(s) => Extracted::Failure(s@),
        }
    }
}

/// The outcome of extracting `name`, where `read` is what the document
/// reader gave for it; the reader is consulted for documents only.
pub open spec fn extraction(name: Seq<char>, read: Option<Result<Seq<char>, Seq<char>>>, max: nat) -> Extracted {
    if !is_document(name) {
        Extracted::Content(Seq::empty())
    } else {
        match read {
            Some(Ok(t)) => Extracted::Content(normalized(t, max)),
            Some(Err(e)) => Extracted::Failure(e),
            None => Extracted::Failure(Seq::empty()),
        }
    }
}

/// The model of what the document reader gave.
pub open spec fn read_view(read: Option<Result<String, String>>) -> Option<Result<Seq<char>, Seq<char>>> {
    match read {
        Some(Ok(t)) => Some(Ok(t@)),
        Some(Err(e)) => Some(Err(e@)),
        None => None,
    }
}

/// Extracts the content of the file `name`. A file that is not a document
/// has empty content, whatever `read` holds; a document has its text, as
/// `read` gives it, normalised; a failure of the reader, or a document that
/// was not read, is a failure.
pub fn extract(name: &str, read: Option<Result<String, String>>, max_length: usize) -> (r: ExtractionOutcome)
    ensures
        r@ == extraction(name@, read_view(read), max_length as nat),
{
    if !crate::entry::is_document_name(name) {
        return ExtractionOutcome::Content(String::new());
    }
    match read {
        None => ExtractionOutcome::Failure(String::new()),
        Some(Ok(text)) => ExtractionOutcome::Content(normalize_content(text.as_str(), max_length)),
        Some(Err(reason)) => ExtractionOutcome::Failure(reason),
    }
}

/// The content that the prompt receives: a failure counts as no content.
pub fn content_of(outcome: ExtractionOutcome) -> (r: String)
    ensures
        r@ == match outcome@ {
            Extracted::Content(s) => s,
            Extracted::Failure(_) => Seq::empty(),
        },
{
    match outcome {
        ExtractionOutcome::Content(s) => s,
        ExtractionOutcome::Failure(_) => String::new(),
    }
}

/// Text in which white space occurs only as single spaces.
pub open spec fn is_collapsed(s: Seq<char>) -> bool {
    &&& forall|i: int| 0 <= i < s.len() && is_white_space(#[trigger] s[i]) ==> s[i] == ' '
    &&& forall|i: int|
        0 <= i < s.len() - 1 ==> !(is_white_space(#[trigger] s[i]) && is_white_space(s[i + 1]))
}

proof fn lemma_collapse_last(s: Seq<char>)
    requires
        s.len() > 0,
    ensures
        collapse_whitespace(s).len() > 0,
        collapse_whitespace(s).last() == if is_white_space(s.last()) {
            ' '
        } else {
            s.last()
        },
    decreases s.len(),
{
    if is_white_space(s.last()) && s.len() >= 2 && is_white_space(s[s.len() - 2]) {
        lemma_collapse_last(s.drop_last());
    }
}

proof fn lemma_collapse_is_collapsed(s: Seq<char>)
    ensures
        is_collapsed(collapse_whitespace(s)),
    decreases s.len(),
{
    if s.len() > 0 {
        let p = collapse_whitespace(s.drop_last());
        lemma_collapse_is_collapsed(s.drop_last());
        if s.len() >= 2 {
            lemma_collapse_last(s.drop_last());
        }
        let r = collapse_whitespace(s);
        assert forall|i: int| 0 <= i < r.len() - 1 implies !(is_white_space(#[trigger] r[i])
            && is_white_space(r[i + 1])) by {
            if i + 1 == p.len() {
                assert(r[i] == p.last());
            } else {
                assert(r[i] == p[i] && r[i + 1] == p[i + 1]);
            }
        }
        assert forall|i: int| 0 <= i < r.len() && is_white_space(#[trigger] r[i]) implies r[i]
            == ' ' by {
            if i < p.len() {
                assert(r[i] == p[i]);
            }
        }
    }
}

proof fn lemma_collapsed_fixed(s: Seq<char>)
    requires
        is_collapsed(s),
    ensures
        collapse_whitespace(s) == s,
    decreases s.len(),
{
    if s.len() > 0 {
        let q = s.drop_last();
        assert forall|i: int| 0 <= i < q.len() - 1 implies !(is_white_space(#[trigger] q[i])
            && is_white_space(q[i + 1])) by {
            assert(q[i] == s[i] && q[i + 1] == s[i + 1]);
        }
        assert forall|i: int| 0 <= i < q.len() && is_white_space(#[trigger] q[i]) implies q[i]
            == ' ' by {
            assert(q[i] == s[i]);
        }
        lemma_collapsed_fixed(q);
        if s.len() >= 2 {
            assert(!(is_white_space(s[s.len() - 2]) && is_white_space(s[s.len() - 1])));
        }
        assert(q.push(s.last()) =~= s);
    }
}

/// Normalising already normalised text with the same bound leaves it
/// unchanged.
pub proof fn lemma_normalize_idempotent(raw: Seq<char>, max: nat)
    ensures
        normalized(normalized(raw, max), max) == normalized(raw, max),
{
    let t = collapse_whitespace(raw);
    lemma_collapse_is_collapsed(raw);
    let u = truncated(t, max);
    assert forall|i: int| 0 <= i < u.len() - 1 implies !(is_white_space(#[trigger] u[i])
        && is_white_space(u[i + 1])) by {
        assert(u[i] == t[i] && u[i + 1] == t[i + 1]);
    }
    assert forall|i: int| 0 <= i < u.len() && is_white_space(#[trigger] u[i]) implies u[i]
        == ' ' by {
        assert(u[i] == t[i]);
    }
    lemma_collapsed_fixed(u);
}

/// Content longer than the bound is cut to exactly the bound.
pub proof fn lemma_truncation_length(raw: Seq<char>, max: nat)
    requires
        collapse_whitespace(raw).len() > max,
    ensures
        normalized(raw, max).len() == max,
{
}

/// Extracting a document from text that was already extracted with the same
/// bound gives the same outcome as the first extraction.
pub proof fn lemma_extraction_repeatable(name: Seq<char>, t: Seq<char>, max: nat)
    requires
        is_document(name),
    ensures
        extraction(name, Some(Ok(normalized(t, max))), max) == extraction(name, Some(Ok(t)), max),
{
    lemma_normalize_idempotent(t, max);
}

} // verus!
