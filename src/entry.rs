use vstd::prelude::*;
use vstd::string::*;
use crate::schema::texts;

verus! {

/// The extension of a name: the text after its last `.`, or the whole name
/// where it holds no `.`.
pub open spec fn extension(s: Seq<char>) -> Seq<char>
    decreases s.len(),
{
    if s.len() == 0 {
        s
    } else if s.last() == '.' {
        Seq::empty()
    } else {
        extension(s.drop_last()).push(s.last())
    }
}

/// The name ends in `.pdf`, the one document format that is read.
pub open spec fn is_document(s: Seq<char>) -> bool {
    s.len() >= 4 && s.subrange(s.len() - 4, s.len() as int) == seq!['.', 'p', 'd', 'f']
}

/// What becomes of a discovered entry.
#[derive(Debug, PartialEq, Eq, Structural)]
pub enum EntryAction {
    /// A directory, or a file whose extension is excluded: not processed.
    Skip,
    /// A document whose text is to be extracted.
    ReadDocument,
    /// A file of an unsupported type: classified with empty content.
    NoContent,
}

/// The action the pipeline takes on an entry.
pub open spec fn entry_action(name: Seq<char>, is_dir: bool, excluded: Seq<Seq<char>>) -> EntryAction {
    if is_dir || excluded.contains(extension(name)) {
        EntryAction::Skip
    } else if is_document(name) {
        EntryAction::ReadDocument
    } else {
        EntryAction::NoContent
    }
}

proof fn lemma_extension_after(s: Seq<char>, k: int)
    requires
        0 <= k < s.len(),
        s[k] == '.',
        forall|m: int| k < m < s.len() ==> s[m] != '.',
    ensures
        extension(s) == s.subrange(k + 1, s.len() as int),
    decreases s.len(),
{
    if k == s.len() - 1 {
    } else {
        lemma_extension_after(s.drop_last(), k);
        assert(s.drop_last().subrange(k + 1, s.len() - 1).push(s.last())
            =~= s.subrange(k + 1, s.len() as int));
    }
}

proof fn lemma_extension_whole(s: Seq<char>)
    requires
        forall|m: int| 0 <= m < s.len() ==> s[m] != '.',
    ensures
        extension(s) == s,
    decreases s.len(),
{
    if s.len() > 0 {
        lemma_extension_whole(s.drop_last());
        assert(s.drop_last().push(s.last()) =~= s);
    }
}

/// The extension of `name`: the text after its last `.`, or all of `name`
/// where it holds none.
pub fn extension_of(name: &str) -> (r: String)
    ensures
        r@ == extension(name@),
{
    let n = name.unicode_len();
    let mut i: usize = n;
    while i > 0
        invariant
            i <= n,
            n == name@.len(),
            forall|m: int| i <= m < n ==> name@[m] != '.',
        decreases i,
    {
        if name.get_char(i - 1) == '.' {
            proof {
                lemma_extension_after(name@, i - 1);
            }
            return String::from_str(name.substring_char(i, n));
        }
        i = i - 1;
    }
    proof {
        lemma_extension_whole(name@);
        assert(name@.subrange(0, n as int) =~= name@);
    }
    String::from_str(name.substring_char(0, n))
}

fn contains_text(list: &Vec<String>, s: &String) -> (r: bool)
    ensures
        r == texts(list@).contains(s@),
{
    let mut i: usize = 0;
    while i < list.len()
        invariant
            i <= list@.len(),
            forall|k: int| 0 <= k < i ==> (#[trigger] list@[k])@ != s@,
        decreases list@.len() - i,
    {
        if list[i] == *s {
            assert(texts(list@)[i as int] == s@);
            return true;
        }
        i = i + 1;
    }
    assert forall|k: int| 0 <= k < texts(list@).len() implies texts(list@)[k] != s@ by {
        assert(texts(list@)[k] == list@[k]@);
    }
    false
}

/// Whether `name` ends in `.pdf`.
pub fn is_document_name(name: &str) -> (r: bool)
    ensures
        r == is_document(name@),
{
    let n = name.unicode_len();
    if n < 4 {
        return false;
    }
    let tail = name.substring_char(n - 4, n);
    let r = tail.get_char(0) == '.' && tail.get_char(1) == 'p' && tail.get_char(2) == 'd'
        && tail.get_char(3) == 'f';
    assert(r == (tail@ =~= seq!['.', 'p', 'd', 'f']));
    r
}

/// Decides what becomes of a discovered entry: directories and entries whose
/// extension is in `excluded` are skipped, documents are read, and any other
/// file is classified with empty content.
pub fn plan_entry(name: &str, is_dir: bool, excluded: &Vec<String>) -> (r: EntryAction)
    ensures
        r == entry_action(name@, is_dir, texts(excluded@)),
{
    if is_dir {
        return EntryAction::Skip;
    }
    let ext = extension_of(name);
    if contains_text(excluded, &ext) {
        EntryAction::Skip
    } else if is_document_name(name) {
        EntryAction::ReadDocument
    } else {
        EntryAction::NoContent
    }
}

} // verus!
