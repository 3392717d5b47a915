use vstd::prelude::*;

verus! {

/// The text of each string of a vector.
pub open spec fn texts(v: Seq<String>) -> Seq<Seq<char>> {
    v.map_values(|s: String| s@)
}

/// One labelling dimension: its name and the values a label may take.
pub struct Category {
    pub name: String,
    pub values: Vec<String>,
}

impl View for Category {
    type V = (Seq<char>, Seq<Seq<char>>);

    open spec fn view(&self) -> (Seq<char>, Seq<Seq<char>>) {
        (self.name@, texts(self.values@))
    }
}

/// Why a set of category entries cannot form a schema.
#[derive(Debug)]
pub enum ConfigError {
    /// A category has an empty name.
    EmptyCategoryName,
    /// The named category lists an empty value.
    EmptyValue(String),
    /// The name is used by two categories.
    DuplicateCategory(String),
}

/// The model of a [`ConfigError`]: its variant and the name it carries.
pub enum ConfigFault {
    EmptyCategoryName,
    EmptyValue(Seq<char>),
    DuplicateCategory(Seq<char>),
}

impl View for ConfigError {
    type V = ConfigFault;

    open spec fn view(&self) -> ConfigFault {
        match self {
            ConfigError::EmptyCategoryName => ConfigFault::EmptyCategoryName,
            ConfigError::EmptyValue(n) => ConfigFault::EmptyValue(n@),
            ConfigError::DuplicateCategory(n) => ConfigFault::DuplicateCategory(n@),
        }
    }
}

/// The model of a list of category entries.
pub open spec fn entries_view(es: Seq<Category>) -> Seq<(Seq<char>, Seq<Seq<char>>)> {
    es.map_values(|c: Category| c@)
}

/// Entry `i` has a non-empty name, non-empty values, and a name that no
/// earlier entry uses.
pub open spec fn entry_ok(es: Seq<(Seq<char>, Seq<Seq<char>>)>, i: int) -> bool {
    &&& es[i].0.len() > 0
    &&& forall|j: int| 0 <= j < es[i].1.len() ==> (#[trigger] es[i].1[j]).len() > 0
    &&& forall|k: int| 0 <= k < i ==> (#[trigger] es[k]).0 != es[i].0
}

/// Every entry is well formed; in particular the names are distinct.
pub open spec fn schema_ok(es: Seq<(Seq<char>, Seq<Seq<char>>)>) -> bool {
    forall|i: int| 0 <= i < es.len() ==> #[trigger] entry_ok(es, i)
}

/// The fault of an entry that is not well formed, in order of precedence:
/// its name, then its values, then its name's uniqueness.
pub open spec fn fault_of(es: Seq<(Seq<char>, Seq<Seq<char>>)>, i: int) -> ConfigFault {
    if es[i].0.len() == 0 {
        ConfigFault::EmptyCategoryName
    } else if exists|j: int| 0 <= j < es[i].1.len() && (#[trigger] es[i].1[j]).len() == 0 {
        ConfigFault::EmptyValue(es[i].0)
    } else {
        ConfigFault::DuplicateCategory(es[i].0)
    }
}

/// The categories of a run, in their order, each with its permitted values.
pub struct CategorySchema {
    categories: Vec<Category>,
}

impl View for CategorySchema {
    type V = Seq<(Seq<char>, Seq<Seq<char>>)>;

    closed spec fn view(&self) -> Seq<(Seq<char>, Seq<Seq<char>>)> {
        entries_view(self.categories@)
    }
}

/// The names of the categories of a schema model, in order.
pub open spec fn names_of(s: Seq<(Seq<char>, Seq<Seq<char>>)>) -> Seq<Seq<char>> {
    s.map_values(|e: (Seq<char>, Seq<Seq<char>>)| e.0)
}

fn has_empty_value(values: &Vec<String>) -> (r: bool)
    ensures
        r == exists|j: int| 0 <= j < values@.len() && (#[trigger] values@[j])@.len() == 0,
{
    let mut j: usize = 0;
    while j < values.len()
        invariant
            j <= values@.len(),
            forall|k: int| 0 <= k < j ==> (#[trigger] values@[k])@.len() > 0,
        decreases values@.len() - j,
    {
        if values[j].as_str().unicode_len() == 0 {
            return true;
        }
        j = j + 1;
    }
    false
}

fn name_used_before(es: &Vec<Category>, i: usize) -> (r: bool)
    requires
        i < es@.len(),
    ensures
        r == exists|k: int| 0 <= k < i && (#[trigger] es@[k]).name@ == es@[i as int].name@,
{
    let mut k: usize = 0;
    while k < i
        invariant
            i < es@.len(),
            k <= i,
            forall|m: int| 0 <= m < k ==> (#[trigger] es@[m]).name@ != es@[i as int].name@,
        decreases i - k,
    {
        if es[k].name == es[i].name {
            return true;
        }
        k = k + 1;
    }
    false
}

impl CategorySchema {
    pub open spec fn wf(&self) -> bool {
        schema_ok(self@)
    }

    /// Builds a schema from its entries, in the given order. Fails on the
    /// first entry that has an empty name, an empty value, or a name that an
    /// earlier entry already uses.
    pub fn new(categories: Vec<Category>) -> (r: Result<CategorySchema, ConfigError>)
        ensures
            match r {
                Ok(s) => s.wf() && schema_ok(entries_view(categories@)) && s@ == entries_view(
                    categories@,
                ),
                Err(e) => exists|i: int|
                    0 <= i < categories@.len() && !entry_ok(entries_view(categories@), i) && (
                    forall|k: int| 0 <= k < i ==> entry_ok(entries_view(categories@), k))
                        && e@ == fault_of(entries_view(categories@), i),
            },
    {
        let ghost es = entries_view(categories@);
        let mut i: usize = 0;
        while i < categories.len()
            invariant
                i <= categories@.len(),
                es == entries_view(categories@),
                forall|k: int| 0 <= k < i ==> entry_ok(es, k),
            decreases categories@.len() - i,
        {
            assert(es[i as int] == categories@[i as int]@);
            assert(texts(categories@[i as int].values@) == es[i as int].1);
            if categories[i].name.as_str().unicode_len() == 0 {
                assert(!entry_ok(es, i as int));
                assert(fault_of(es, i as int) == ConfigFault::EmptyCategoryName);
                return Err(ConfigError::EmptyCategoryName);
            }
            if has_empty_value(&categories[i].values) {
                let ghost j = choose|j: int|
                    0 <= j < categories@[i as int].values@.len() && (#[trigger] categories@[i as int].values@[j])@.len() == 0;
                assert(es[i as int].1[j] == categories@[i as int].values@[j]@);
                assert(!entry_ok(es, i as int));
                assert(fault_of(es, i as int) == ConfigFault::EmptyValue(es[i as int].0));
                let name = categories[i].name.clone();
                return Err(ConfigError::EmptyValue(name));
            }
            assert forall|j: int| 0 <= j < es[i as int].1.len() implies (#[trigger] es[i as int].1[j]).len() > 0 by {
                assert(es[i as int].1[j] == categories@[i as int].values@[j]@);
            }
            if name_used_before(&categories, i) {
                let ghost k = choose|k: int| 0 <= k < i && (#[trigger] categories@[k]).name@ == categories@[i as int].name@;
                assert(es[k].0 == categories@[k].name@);
                assert(!entry_ok(es, i as int));
                assert(fault_of(es, i as int) == ConfigFault::DuplicateCategory(es[i as int].0));
                let name = categories[i].name.clone();
                return Err(ConfigError::DuplicateCategory(name));
            }
            assert forall|k: int| 0 <= k < i implies (#[trigger] es[k]).0 != es[i as int].0 by {
                assert(es[k].0 == categories@[k].name@);
            }
            assert(entry_ok(es, i as int));
            i = i + 1;
        }
        Ok(CategorySchema { categories })
    }

    /// The number of categories.
    pub fn len(&self) -> (r: usize)
        ensures
            r == self@.len(),
    {
        self.categories.len()
    }

    /// The category at position `i`.
    pub fn category(&self, i: usize) -> (r: &Category)
        requires
            i < self@.len(),
        ensures
            r@ == self@[i as int],
    {
        &self.categories[i]
    }
}

} // verus!
