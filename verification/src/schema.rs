//! The description of tools and of the values that they take.
use vstd::prelude::*;
use vstd::string::*;

use crate::text::{opt_texts, owned, text_of, texts, to_chars};

verus! {

/// The order of texts: that of their first different characters, and of their lengths.
pub open spec fn text_less(a: Seq<char>, b: Seq<char>) -> bool
    decreases a.len(),
{
    if b.len() == 0 {
        false
    } else if a.len() == 0 {
        true
    } else if a[0] == b[0] {
        text_less(a.skip(1), b.skip(1))
    } else {
        a[0] < b[0]
    }
}

/// The order of texts is transitive and strict, and orders any two.
pub proof fn lemma_text_less(a: Seq<char>, b: Seq<char>, c: Seq<char>)
    ensures
        text_less(a, b) && text_less(b, c) ==> text_less(a, c),
        !text_less(a, a),
        a == b || text_less(a, b) || text_less(b, a),
        text_less(a, b) ==> a != b && !text_less(b, a),
    decreases a.len() + b.len() + c.len(),
{
    if a.len() > 0 {
        lemma_text_less(
            a.skip(1),
            if b.len() > 0 {
                b.skip(1)
            } else {
                b
            },
            if c.len() > 0 {
                c.skip(1)
            } else {
                c
            },
        );
        if b.len() > 0 && a[0] == b[0] && a.skip(1) == b.skip(1) {
            assert(a =~= seq![a[0]] + a.skip(1));
            assert(b =~= seq![b[0]] + b.skip(1));
        }
    } else if b.len() == 0 {
        assert(a =~= b);
    }
}

/// How two texts stand to each other.
#[derive(Clone, Copy, Debug, PartialEq, Eq, Structural)]
pub enum TextOrder {
    Before,
    Same,
    After,
}

/// Finds out how two texts stand to each other.
pub fn order_texts(a: &str, b: &str) -> (r: TextOrder)
    ensures
        match r {
            TextOrder::Before => text_less(a@, b@),
            TextOrder::Same => a@ == b@,
            TextOrder::After => text_less(b@, a@),
        },
{
    let left = to_chars(a);
    let right = to_chars(b);
    let mut i: usize = 0;
    assert(left@.skip(0) =~= left@);
    assert(right@.skip(0) =~= right@);
    loop
        invariant
            i <= left@.len(),
            i <= right@.len(),
            left@ == a@,
            right@ == b@,
            left@.take(i as int) == right@.take(i as int),
            text_less(a@, b@) == text_less(left@.skip(i as int), right@.skip(i as int)),
            text_less(b@, a@) == text_less(right@.skip(i as int), left@.skip(i as int)),
        decreases left@.len() - i,
    {
        if i == right.len() {
            if i == left.len() {
                assert(left@.take(i as int) =~= left@);
                assert(right@.take(i as int) =~= right@);
                return TextOrder::Same;
            }
            return TextOrder::After;
        }
        if i == left.len() {
            return TextOrder::Before;
        }
        let x = left[i];
        let y = right[i];
        assert(left@.skip(i as int)[0] == x);
        assert(right@.skip(i as int)[0] == y);
        if x != y {
            return if x < y {
                TextOrder::Before
            } else {
                TextOrder::After
            };
        }
        assert(left@.skip(i as int).skip(1) =~= left@.skip(i + 1));
        assert(right@.skip(i as int).skip(1) =~= right@.skip(i + 1));
        assert(left@.take(i + 1) =~= left@.take(i as int).push(x));
        assert(right@.take(i + 1) =~= right@.take(i as int).push(y));
        i += 1;
    }
}

/// What values a tool takes or gives.
#[derive(Debug, PartialEq, Eq)]
pub enum JsonSchema {
    Text { description: Option<String>, choices: Option<Vec<String>> },
    Number { description: Option<String> },
    Boolean { description: Option<String> },
    Array { items: Box<JsonSchema>, description: Option<String> },
    Object {
        properties: SchemaMap,
        required: Option<Vec<String>>,
        additional_properties: Option<bool>,
    },
}

/// Named schemas, in the order of their names, no name twice.
#[derive(Debug, PartialEq, Eq)]
pub struct SchemaMap {
    entries: Vec<(String, JsonSchema)>,
}

/// What values a tool takes or gives.
pub enum Schema {
    Text { description: Option<Seq<char>>, choices: Option<Seq<Seq<char>>> },
    Number { description: Option<Seq<char>> },
    Boolean { description: Option<Seq<char>> },
    List { items: Box<Schema>, description: Option<Seq<char>> },
    Record {
        properties: Map<Seq<char>, Schema>,
        required: Option<Seq<Seq<char>>>,
        additional_properties: Option<bool>,
    },
}

impl JsonSchema {
    pub closed spec fn model(self) -> Schema
        decreases self,
    {
        match self {
            JsonSchema::Text { description, choices } => Schema::Text {
                description: text_of(description),
                choices: opt_texts(choices),
            },
            JsonSchema::Number { description } => Schema::Number {
                description: text_of(description),
            },
            JsonSchema::Boolean { description } => Schema::Boolean {
                description: text_of(description),
            },
            JsonSchema::Array { items, description } => Schema::List {
                items: Box::new(items.model()),
                description: text_of(description),
            },
            JsonSchema::Object { properties, required, additional_properties } => Schema::Record {
                properties: entries_model(properties.entries@),
                required: opt_texts(required),
                additional_properties,
            },
        }
    }
}

spec fn entries_model(entries: Seq<(String, JsonSchema)>) -> Map<Seq<char>, Schema>
    decreases entries,
{
    if entries.len() == 0 {
        Map::empty()
    } else {
        entries_model(entries.drop_last()).insert(entries.last().0@, entries.last().1.model())
    }
}

impl View for SchemaMap {
    type V = Map<Seq<char>, Schema>;

    closed spec fn view(&self) -> Map<Seq<char>, Schema> {
        entries_model(self.entries@)
    }
}

spec fn names_ascend(entries: Seq<(String, JsonSchema)>) -> bool {
    forall|i: int, j: int|
        0 <= i < j < entries.len() ==> text_less((#[trigger] entries[i]).0@, (
        #[trigger] entries[j]).0@)
}

proof fn lemma_entries_insert(
    entries: Seq<(String, JsonSchema)>,
    at: int,
    entry: (String, JsonSchema),
)
    requires
        0 <= at <= entries.len(),
        forall|i: int| 0 <= i < entries.len() ==> (#[trigger] entries[i]).0@ != entry.0@,
    ensures
        entries_model(entries.insert(at, entry)) == entries_model(entries).insert(
            entry.0@,
            entry.1.model(),
        ),
    decreases entries.len(),
{
    let all = entries.insert(at, entry);
    if at == entries.len() {
        assert(all.drop_last() =~= entries);
    } else {
        let front = entries.drop_last();
        assert(all.drop_last() =~= front.insert(at, entry));
        assert(all.last() == entries.last());
        lemma_entries_insert(front, at, entry);
        assert(entries.last().0@ != entry.0@);
        assert(entries_model(all) =~= entries_model(entries).insert(entry.0@, entry.1.model()));
    }
}

proof fn lemma_entries_replace(
    entries: Seq<(String, JsonSchema)>,
    at: int,
    entry: (String, JsonSchema),
)
    requires
        0 <= at < entries.len(),
        names_ascend(entries),
        entries[at].0@ == entry.0@,
    ensures
        entries_model(entries.update(at, entry)) == entries_model(entries).insert(
            entry.0@,
            entry.1.model(),
        ),
    decreases entries.len(),
{
    let all = entries.update(at, entry);
    let front = entries.drop_last();
    if at == entries.len() - 1 {
        assert(all.drop_last() =~= front);
        assert(entries_model(all) =~= entries_model(entries).insert(entry.0@, entry.1.model()));
    } else {
        assert(all.drop_last() =~= front.update(at, entry));
        assert(all.last() == entries.last());
        lemma_entries_replace(front, at, entry);
        assert(text_less(entries[at].0@, entries[entries.len() - 1].0@));
        lemma_text_less(entry.0@, entries.last().0@, entry.0@);
        assert(entries_model(all) =~= entries_model(entries).insert(entry.0@, entry.1.model()));
    }
}

impl SchemaMap {
    /// Whether the names ascend, as they do in every map.
    #[verifier::type_invariant]
    pub closed spec fn ordered(self) -> bool {
        names_ascend(self.entries@)
    }

    /// No schemas.
    pub fn new() -> (r: SchemaMap)
        ensures
            r@ == Map::<Seq<char>, Schema>::empty(),
    {
        SchemaMap { entries: Vec::new() }
    }

    /// The names, in order.
    pub closed spec fn names(&self) -> Seq<Seq<char>> {
        Seq::new(self.entries@.len(), |i: int| self.entries@[i].0@)
    }

    /// Gives `name` the schema `schema`, in place of the one that it had.
    pub fn insert(&mut self, name: &str, schema: JsonSchema)
        ensures
            final(self)@ == old(self)@.insert(name@, schema.model()),
    {
        proof {
            use_type_invariant(&*self);
        }
        let mut entries: Vec<(String, JsonSchema)> = Vec::new();
        std::mem::swap(&mut self.entries, &mut entries);
        let ghost before = entries@;
        let mut at: usize = 0;
        while at < entries.len()
            invariant
                at <= entries@.len(),
                entries@ == before,
                names_ascend(before),
                self.entries@.len() == 0,
                self.ordered(),
                forall|i: int| 0 <= i < at ==> text_less((#[trigger] before[i]).0@, name@),
                old(self)@ == entries_model(before),
            decreases entries@.len() - at,
        {
            match order_texts(entries[at].0.as_str(), name) {
                TextOrder::Before => {
                    at += 1;
                },
                TextOrder::Same => {
                    let entry = (owned(name), schema);
                    proof {
                        lemma_entries_replace(before, at as int, entry);
                    }
                    entries.set(at, entry);
                    assert(entries@ =~= before.update(at as int, entry));
                    assert(names_ascend(entries@)) by {
                        assert forall|i: int, j: int| 0 <= i < j < entries@.len() implies text_less(
                            (#[trigger] entries@[i]).0@,
                            (#[trigger] entries@[j]).0@,
                        ) by {
                            assert(text_less(before[i].0@, before[j].0@));
                        }
                    }
                    self.entries = entries;
                    return ;
                },
                TextOrder::After => {
                    proof {
                        lemma_place(before, at as int, name@);
                    }
                    self.put(entries, at, name, schema);
                    return ;
                },
            }
        }
        self.put(entries, at, name, schema);
    }

    fn put(&mut self, entries: Vec<(String, JsonSchema)>, at: usize, name: &str, schema: JsonSchema)
        requires
            at <= entries@.len(),
            names_ascend(entries@),
            forall|i: int| 0 <= i < at ==> text_less((#[trigger] entries@[i]).0@, name@),
            forall|i: int|
                at <= i < entries@.len() ==> text_less(name@, (#[trigger] entries@[i]).0@),
        ensures
            final(self)@ == entries_model(entries@).insert(name@, schema.model()),
    {
        let ghost before = entries@;
        let mut entries = entries;
        let entry = (owned(name), schema);
        proof {
            assert forall|i: int| 0 <= i < before.len() implies (#[trigger] before[i]).0@
                != entry.0@ by {
                lemma_text_less(before[i].0@, name@, before[i].0@);
                lemma_text_less(name@, before[i].0@, name@);
            }
            lemma_entries_insert(before, at as int, entry);
            lemma_insert_ascends(before, at as int, entry);
        }
        entries.insert(at, entry);
        assert(entries@ =~= before.insert(at as int, entry));
        self.entries = entries;
    }

    /// The schemas of a list; a later entry takes the place of an earlier one of the same name.
    pub fn from_entries(list: Vec<(String, JsonSchema)>) -> (r: SchemaMap)
        ensures
            r@ == list_model(list@),
    {
        let mut out = SchemaMap::new();
        let mut list = list;
        let ghost all = list@;
        let mut left: Vec<(String, JsonSchema)> = Vec::new();
        while list.len() > 0
            invariant
                list@.len() + left@.len() == all.len(),
                list@ == all.take(list@.len() as int),
                forall|k: int| 0 <= k < left@.len() ==> #[trigger] left@[k] == all[all.len() - 1 - k],
            decreases list@.len(),
        {
            let ghost held = list@;
            if let Some(entry) = list.pop() {
                assert(list@ =~= all.take(held.len() - 1));
                left.push(entry);
            }
        }
        assert(all.take(0) =~= Seq::<(String, JsonSchema)>::empty());
        while left.len() > 0
            invariant
                left@.len() <= all.len(),
                forall|k: int| 0 <= k < left@.len() ==> #[trigger] left@[k] == all[all.len() - 1 - k],
                out@ == list_model(all.take(all.len() - left@.len())),
            decreases left@.len(),
        {
            let ghost done = all.len() - left@.len();
            if let Some(entry) = left.pop() {
                assert(entry == all[done]);
                assert(all.take(done + 1).drop_last() =~= all.take(done));
                assert(all.take(done + 1).last() == entry);
                out.insert(entry.0.as_str(), entry.1);
            }
        }
        assert(all.take(all.len() as int) =~= all);
        out
    }

    /// How many schemas there are.
    pub fn len(&self) -> (r: usize)
        ensures
            r == self.names().len(),
            lists_in_order(self.names(), self@.dom()),
    {
        proof {
            use_type_invariant(self);
            law_names_are_the_keys_in_order(*self);
        }
        self.entries.len()
    }

    /// The name and the schema at place `index`, in the order of the names.
    pub fn entry(&self, index: usize) -> (r: (&str, &JsonSchema))
        requires
            index < self.names().len(),
        ensures
            r.0@ == self.names()[index as int],
            lists_in_order(self.names(), self@.dom()),
            self@.dom().contains(r.0@) && self@[r.0@] == r.1.model(),
    {
        proof {
            use_type_invariant(self);
            law_names_are_the_keys_in_order(*self);
            lemma_entry(self.entries@, index as int);
        }
        let entry = &self.entries[index];
        (entry.0.as_str(), &entry.1)
    }
}

/// The schemas of a list; a later entry takes the place of an earlier one of the same name.
pub open spec fn list_model(list: Seq<(String, JsonSchema)>) -> Map<Seq<char>, Schema>
    decreases list.len(),
{
    if list.len() == 0 {
        Map::empty()
    } else {
        list_model(list.drop_last()).insert(list.last().0@, list.last().1.model())
    }
}

proof fn lemma_entry(entries: Seq<(String, JsonSchema)>, at: int)
    requires
        names_ascend(entries),
        0 <= at < entries.len(),
    ensures
        entries_model(entries).dom().contains(entries[at].0@),
        entries_model(entries)[entries[at].0@] == entries[at].1.model(),
    decreases entries.len(),
{
    if at < entries.len() - 1 {
        lemma_entry(entries.drop_last(), at);
        assert(text_less(entries[at].0@, entries[entries.len() - 1].0@));
        lemma_text_less(entries[at].0@, entries.last().0@, entries[at].0@);
    }
}

/// Every name of the model is the name of an entry.
proof fn lemma_key(entries: Seq<(String, JsonSchema)>, name: Seq<char>) -> (at: int)
    requires
        entries_model(entries).dom().contains(name),
    ensures
        0 <= at < entries.len(),
        entries[at].0@ == name,
    decreases entries.len(),
{
    if entries.last().0@ == name {
        entries.len() - 1
    } else {
        lemma_key(entries.drop_last(), name)
    }
}

/// Whether a list holds just these names, in ascending order.
pub open spec fn lists_in_order(names: Seq<Seq<char>>, keys: Set<Seq<char>>) -> bool {
    &&& forall|i: int, j: int|
        0 <= i < j < names.len() ==> text_less(#[trigger] names[i], #[trigger] names[j])
    &&& forall|name: Seq<char>| #[trigger] names.contains(name) <==> keys.contains(name)
}

/// A map names its keys in ascending order, each once.
pub proof fn law_names_are_the_keys_in_order(map: SchemaMap)
    requires
        map.ordered(),
    ensures
        lists_in_order(map.names(), map@.dom()),
        map.names().no_duplicates(),
{
    let entries = map.entries@;
    let names = map.names();
    assert forall|i: int, j: int| 0 <= i < j < names.len() implies text_less(
        #[trigger] names[i],
        #[trigger] names[j],
    ) by {
        assert(text_less(entries[i].0@, entries[j].0@));
    }
    assert forall|name: Seq<char>| #[trigger] names.contains(name) <==> map@.dom().contains(
        name,
    ) by {
        if names.contains(name) {
            let at = choose|at: int| 0 <= at < names.len() && names[at] == name;
            lemma_entry(entries, at);
        }
        if map@.dom().contains(name) {
            let at = lemma_key(entries, name);
            assert(names[at] == name);
        }
    }
    assert forall|i: int, j: int| 0 <= i < names.len() && 0 <= j < names.len() && i != j implies
        names[i] != names[j] by {
        lemma_text_less(names[i], names[j], names[i]);
        lemma_text_less(names[j], names[i], names[j]);
        if i < j {
            assert(text_less(names[i], names[j]));
        } else {
            assert(text_less(names[j], names[i]));
        }
    }
}

/// A name before the one at `at` is before all that follow.
proof fn lemma_place(entries: Seq<(String, JsonSchema)>, at: int, name: Seq<char>)
    requires
        names_ascend(entries),
        0 <= at < entries.len(),
        text_less(name, entries[at].0@),
    ensures
        forall|i: int| at <= i < entries.len() ==> text_less(name, (#[trigger] entries[i]).0@),
{
    assert forall|i: int| at <= i < entries.len() implies text_less(
        name,
        (#[trigger] entries[i]).0@,
    ) by {
        if i > at {
            assert(text_less(entries[at].0@, entries[i].0@));
            lemma_text_less(name, entries[at].0@, entries[i].0@);
        }
    }
}

proof fn lemma_insert_ascends(
    entries: Seq<(String, JsonSchema)>,
    at: int,
    entry: (String, JsonSchema),
)
    requires
        names_ascend(entries),
        0 <= at <= entries.len(),
        forall|i: int| 0 <= i < at ==> text_less((#[trigger] entries[i]).0@, entry.0@),
        forall|i: int| at <= i < entries.len() ==> text_less(entry.0@, (#[trigger] entries[i]).0@),
    ensures
        names_ascend(entries.insert(at, entry)),
{
    let all = entries.insert(at, entry);
    assert forall|i: int, j: int| 0 <= i < j < all.len() implies text_less(
        (#[trigger] all[i]).0@,
        (#[trigger] all[j]).0@,
    ) by {
        let old_i = if i < at {
            i
        } else {
            i - 1
        };
        let old_j = if j < at {
            j
        } else {
            j - 1
        };
        if i == at {
            assert(all[j] == entries[old_j]);
        } else if j == at {
            assert(all[i] == entries[old_i]);
        } else {
            assert(all[i] == entries[old_i]);
            assert(all[j] == entries[old_j]);
            assert(text_less(entries[old_i].0@, entries[old_j].0@));
        }
    }
}

impl JsonSchema {
    /// A text.
    pub fn string(description: Option<String>) -> (r: JsonSchema)
        ensures
            r.model() == (Schema::Text { description: text_of(description), choices: None }),
    {
        JsonSchema::Text { description, choices: None }
    }

    /// One of some texts.
    pub fn string_enum(choices: Vec<String>, description: Option<String>) -> (r: JsonSchema)
        ensures
            r.model() == (Schema::Text {
                description: text_of(description),
                choices: Some(texts(choices@)),
            }),
    {
        JsonSchema::Text { description, choices: Some(choices) }
    }

    /// A number.
    pub fn number(description: Option<String>) -> (r: JsonSchema)
        ensures
            r.model() == (Schema::Number { description: text_of(description) }),
    {
        JsonSchema::Number { description }
    }

    /// True or false.
    pub fn boolean(description: Option<String>) -> (r: JsonSchema)
        ensures
            r.model() == (Schema::Boolean { description: text_of(description) }),
    {
        JsonSchema::Boolean { description }
    }

    /// A list of such values.
    pub fn array(items: JsonSchema, description: Option<String>) -> (r: JsonSchema)
        ensures
            r.model() == (Schema::List {
                items: Box::new(items.model()),
                description: text_of(description),
            }),
    {
        JsonSchema::Array { items: Box::new(items), description }
    }

    /// Named values.
    pub fn object(
        properties: SchemaMap,
        required: Option<Vec<String>>,
        additional_properties: Option<bool>,
    ) -> (r: JsonSchema)
        ensures
            r.model() == (Schema::Record {
                properties: properties@,
                required: opt_texts(required),
                additional_properties,
            }),
    {
        JsonSchema::Object { properties, required, additional_properties }
    }
}

/// A function that the model can call.
#[derive(Debug, PartialEq, Eq)]
pub struct ResponsesApiTool {
    pub name: String,
    pub description: String,
    pub strict: bool,
    pub defer_loading: Option<bool>,
    pub parameters: JsonSchema,
    pub output_schema: Option<JsonSchema>,
}

/// A tool that the model can use.
#[derive(Debug, PartialEq, Eq)]
pub enum ToolSpec {
    Function(ResponsesApiTool),
}

/// The arguments of a patch.
#[derive(Debug, PartialEq, Eq)]
pub struct ApplyPatchToolArgs {
    pub input: String,
}

impl Clone for ApplyPatchToolArgs {
    fn clone(&self) -> (r: ApplyPatchToolArgs)
        ensures
            r.input@ == self.input@,
    {
        ApplyPatchToolArgs { input: owned(self.input.as_str()) }
    }
}

/// The schema of a name in a list is the last one that the list gives it; other names have none.
pub proof fn law_last_entry_of_a_name_counts(list: Seq<(String, JsonSchema)>, name: Seq<char>, at: int)
    ensures
        0 <= at < list.len() && list[at].0@ == name && (forall|i: int|
            at < i < list.len() ==> (#[trigger] list[i]).0@ != name) ==> list_model(
            list,
        ).dom().contains(name) && list_model(list)[name] == list[at].1.model(),
        (forall|i: int| 0 <= i < list.len() ==> (#[trigger] list[i]).0@ != name) ==> !list_model(
            list,
        ).dom().contains(name),
    decreases list.len(),
{
    if list.len() > 0 {
        let front = list.drop_last();
        law_last_entry_of_a_name_counts(front, name, at);
        assert(list[list.len() - 1] == list.last());
        assert forall|i: int| 0 <= i < front.len() implies front[i] == list[i] by {}
    }
}

} // verus!
