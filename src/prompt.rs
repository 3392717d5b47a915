use vstd::prelude::*;
use vstd::string::*;
use crate::schema::{CategorySchema, Category, names_of, texts};

verus! {

/// A discovered file, as handed to the prompt: its path and its content.
pub struct FileObject {
    pub path: String,
    pub content: String,
}

impl View for FileObject {
    type V = (Seq<char>, Seq<char>);

    open spec fn view(&self) -> (Seq<char>, Seq<char>) {
        (self.path@, self.content@)
    }
}

/// The quoted list of permitted values, one per line.
pub open spec fn values_block(vs: Seq<Seq<char>>) -> Seq<char>
    decreases vs.len(),
{
    if vs.len() == 0 {
        Seq::empty()
    } else {
        values_block(vs.drop_last()) + "\""@ + vs.last() + "\",\n"@
    }
}

/// The instruction for one category, followed by its bracketed values.
pub open spec fn category_block(c: (Seq<char>, Seq<Seq<char>>)) -> Seq<char> {
    "Analyze the path and content of the object below and label it with a "@ + c.0
        + " value from the list"@ + "\n\n"@ + c.0 + ": [\n"@ + values_block(c.1) + "]\n\n"@
}

/// The instructions of all categories, in schema order.
pub open spec fn categories_block(s: Seq<(Seq<char>, Seq<Seq<char>>)>) -> Seq<char>
    decreases s.len(),
{
    if s.len() == 0 {
        Seq::empty()
    } else {
        categories_block(s.drop_last()) + category_block(s.last())
    }
}

/// The names joined with `", "`.
pub open spec fn joined(names: Seq<Seq<char>>) -> Seq<char>
    decreases names.len(),
{
    if names.len() == 0 {
        Seq::empty()
    } else if names.len() == 1 {
        names[0]
    } else {
        joined(names.drop_last()) + ", "@ + names.last()
    }
}

/// The object under classification, between two separator lines.
pub open spec fn object_block(f: (Seq<char>, Seq<char>)) -> Seq<char> {
    "####\n"@ + "Object: {\n"@ + "  path: \""@ + f.0 + "\",\n"@ + "  content: \""@ + f.1
        + "\",\n"@ + "}\n"@ + "####\n\n"@
}

/// The complete prompt for a schema and a file.
pub open spec fn prompt_text(s: Seq<(Seq<char>, Seq<Seq<char>>)>, f: (Seq<char>, Seq<char>)) -> Seq<
    char,
> {
    categories_block(s) + object_block(f)
        + "Use known values from the lists above when assigning labels if a label cannot be determined assign Unknown. Return a JSON string with values for "@
        + joined(names_of(s)) + " and path."@
}

fn push_values(out: &mut String, values: &Vec<String>)
    ensures
        final(out)@ == old(out)@ + values_block(texts(values@)),
{
    let ghost start = out@;
    let mut j: usize = 0;
    while j < values.len()
        invariant
            j <= values@.len(),
            out@ == start + values_block(texts(values@.subrange(0, j as int))),
        decreases values@.len() - j,
    {
        out.append("\"");
        out.append(values[j].as_str());
        out.append("\",\n");
        proof {
            let next = texts(values@.subrange(0, j + 1));
            assert(next.drop_last() =~= texts(values@.subrange(0, j as int)));
            assert(next.last() == values@[j as int]@);
        }
        j = j + 1;
    }
    assert(values@.subrange(0, values@.len() as int) =~= values@);
}

fn push_category(out: &mut String, c: &Category)
    ensures
        final(out)@ == old(out)@ + category_block(c@),
{
    out.append("Analyze the path and content of the object below and label it with a ");
    out.append(c.name.as_str());
    out.append(" value from the list");
    out.append("\n\n");
    out.append(c.name.as_str());
    out.append(": [\n");
    push_values(out, &c.values);
    out.append("]\n\n");
}

/// Renders the prompt that asks the model to label `file` with one value of
/// each category of `schema`. The result depends on its arguments alone.
pub fn prompt(schema: &CategorySchema, file: FileObject) -> (r: String)
    ensures
        r@ == prompt_text(schema@, file@),
{
    let mut out = String::new();
    let n = schema.len();
    let mut i: usize = 0;
    while i < n
        invariant
            n == schema@.len(),
            i <= n,
            out@ == categories_block(schema@.subrange(0, i as int)),
        decreases n - i,
    {
        let c = schema.category(i);
        push_category(&mut out, c);
        proof {
            let next = schema@.subrange(0, i + 1);
            assert(next.drop_last() =~= schema@.subrange(0, i as int));
        }
        i = i + 1;
    }
    assert(schema@.subrange(0, n as int) =~= schema@);
    out.append("####\n");
    out.append("Object: {\n");
    out.append("  path: \"");
    out.append(file.path.as_str());
    out.append("\",\n");
    out.append("  content: \"");
    out.append(file.content.as_str());
    out.append("\",\n");
    out.append("}\n");
    out.append("####\n\n");
    out.append(
        "Use known values from the lists above when assigning labels if a label cannot be determined assign Unknown. Return a JSON string with values for ",
    );
    let mut k: usize = 0;
    let ghost before = out@;
    while k < n
        invariant
            n == schema@.len(),
            k <= n,
            out@ == before + joined(names_of(schema@).subrange(0, k as int)),
        decreases n - k,
    {
        if k > 0 {
            out.append(", ");
        }
        out.append(schema.category(k).name.as_str());
        proof {
            let next = names_of(schema@).subrange(0, k + 1);
            assert(next.drop_last() =~= names_of(schema@).subrange(0, k as int));
            assert(next.last() == schema@[k as int].0);
            if k == 0 {
                assert(joined(names_of(schema@).subrange(0, 0)) =~= Seq::<char>::empty());
            }
        }
        k = k + 1;
    }
    assert(names_of(schema@).subrange(0, n as int) =~= names_of(schema@));
    out.append(" and path.");
    assert(out@ =~= prompt_text(schema@, file@));
    out
}

/// Rendering is deterministic: equal schemas and equal files give the same
/// prompt, character for character.
pub proof fn lemma_prompt_deterministic(
    s1: Seq<(Seq<char>, Seq<Seq<char>>)>,
    s2: Seq<(Seq<char>, Seq<Seq<char>>)>,
    f1: (Seq<char>, Seq<char>),
    f2: (Seq<char>, Seq<char>),
)
    requires
        s1 == s2,
        f1 == f2,
    ensures
        prompt_text(s1, f1) == prompt_text(s2, f2),
{
}

} // verus!
