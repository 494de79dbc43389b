use vstd::prelude::*;

verus! {

/// The inferred type of one use of a variable.
pub enum MessageVariableType {
    /// Any value is accepted: the required type cannot be determined.
    Any,
    /// Any numeric value.
    Number,
    /// A value that a plural selection reads as a number.
    Plural,
    /// One of the given values.
    Enum(Vec<String>),
    /// A date.
    Date,
    /// A time.
    Time,
    /// A function that wraps content in some structured replacement.
    HookFunction,
    /// A hook function that renders a link.
    LinkFunction,
}

/// The mathematical value of a `MessageVariableType`.
pub enum VariableTypeModel {
    Any,
    Number,
    Plural,
    Enum(Seq<Seq<char>>),
    Date,
    Time,
    HookFunction,
    LinkFunction,
}

impl View for MessageVariableType {
    type V = VariableTypeModel;

    open spec fn view(&self) -> VariableTypeModel {
        match self {
            MessageVariableType::Any => VariableTypeModel::Any,
            MessageVariableType::Number => VariableTypeModel::Number,
            MessageVariableType::Plural => VariableTypeModel::Plural,
            MessageVariableType::Enum(values) => VariableTypeModel::Enum(
                values@.map_values(|v: String| v@),
            ),
            MessageVariableType::Date => VariableTypeModel::Date,
            MessageVariableType::Time => VariableTypeModel::Time,
            MessageVariableType::HookFunction => VariableTypeModel::HookFunction,
            MessageVariableType::LinkFunction => VariableTypeModel::LinkFunction,
        }
    }
}

impl MessageVariableType {
    /// A copy with the same value.
    pub fn duplicate(&self) -> (r: MessageVariableType)
        ensures
            r@ == self@,
    {
        match self {
            MessageVariableType::Any => MessageVariableType::Any,
            MessageVariableType::Number => MessageVariableType::Number,
            MessageVariableType::Plural => MessageVariableType::Plural,
            MessageVariableType::Enum(values) => {
                let mut copy: Vec<String> = Vec::new();
                let mut i: usize = 0;
                while i < values.len()
                    invariant
                        i <= values@.len(),
                        copy@.len() == i,
                        forall|j: int| 0 <= j < i ==> (#[trigger] copy@[j])@ == values@[j]@,
                    decreases values@.len() - i,
                {
                    copy.push(values[i].clone());
                    i = i + 1;
                }
                assert(copy@.map_values(|v: String| v@) =~= values@.map_values(|v: String| v@));
                MessageVariableType::Enum(copy)
            },
            MessageVariableType::Date => MessageVariableType::Date,
            MessageVariableType::Time => MessageVariableType::Time,
            MessageVariableType::HookFunction => MessageVariableType::HookFunction,
            MessageVariableType::LinkFunction => MessageVariableType::LinkFunction,
        }
    }
}

/// One use of a variable in a message. Every use is recorded on its own, even
/// when the variable was already seen.
pub struct MessageVariableInstance {
    /// Where in the message the variable is used, when known.
    pub span: Option<usize>,
    /// The inferred type of this use.
    pub kind: MessageVariableType,
}

/// The mathematical value of a use: its inferred type and its position.
pub type InstanceModel = (VariableTypeModel, Option<usize>);

/// The mathematical value of a catalog entry: a name and its uses, in order.
pub type EntryModel = (Seq<char>, Seq<InstanceModel>);

impl View for MessageVariableInstance {
    type V = InstanceModel;

    open spec fn view(&self) -> InstanceModel {
        (self.kind@, self.span)
    }
}

impl MessageVariableInstance {
    /// A copy with the same value.
    pub fn duplicate(&self) -> (r: MessageVariableInstance)
        ensures
            r@ == self@,
    {
        MessageVariableInstance { span: self.span, kind: self.kind.duplicate() }
    }
}

/// The uses recorded under `name`, if `name` has an entry.
pub open spec fn lookup(entries: Seq<EntryModel>, name: Seq<char>) -> Option<Seq<InstanceModel>>
    decreases entries.len(),
{
    if entries.len() == 0 {
        None
    } else if entries[0].0 == name {
        Some(entries[0].1)
    } else {
        lookup(entries.drop_first(), name)
    }
}

/// The entries with `uses` appended to those of `name`; an entry for `name`
/// is added at the end when there is none.
pub open spec fn add_uses(entries: Seq<EntryModel>, name: Seq<char>, uses: Seq<InstanceModel>) -> Seq<
    EntryModel,
>
    decreases entries.len(),
{
    if entries.len() == 0 {
        seq![(name, uses)]
    } else if entries[0].0 == name {
        seq![(name, entries[0].1 + uses)] + entries.drop_first()
    } else {
        seq![entries[0]] + add_uses(entries.drop_first(), name, uses)
    }
}

/// Recording uses under a name appends them to what that name had (nothing,
/// for a new name), leaves every other name as it was, and keeps names
/// distinct.
pub proof fn lemma_add_uses_lookup(
    entries: Seq<EntryModel>,
    name: Seq<char>,
    uses: Seq<InstanceModel>,
    other: Seq<char>,
)
    requires
        names_unique(entries),
    ensures
        lookup(add_uses(entries, name, uses), name) == Some(
            match lookup(entries, name) {
                Some(old) => old + uses,
                None => uses,
            },
        ),
        other != name ==> lookup(add_uses(entries, name, uses), other) == lookup(entries, other),
        names_unique(add_uses(entries, name, uses)),
    decreases entries.len(),
{
    if entries.len() > 0 {
        let rest = entries.drop_first();
        assert forall|a: int, b: int| 0 <= a < b < rest.len() implies (#[trigger] rest[a]).0
            != (#[trigger] rest[b]).0 by {
            assert(rest[a] == entries[a + 1] && rest[b] == entries[b + 1]);
        }
        let r = add_uses(entries, name, uses);
        if entries[0].0 == name {
            assert(r.drop_first() =~= rest);
            assert forall|j: int| 0 <= j < rest.len() implies (#[trigger] rest[j]).0 != name by {
                assert(rest[j] == entries[j + 1]);
            }
            assert forall|a: int, b: int| 0 <= a < b < r.len() implies (#[trigger] r[a]).0 != (
            #[trigger] r[b]).0 by {
                if a > 0 {
                    assert(r[a] == entries[a] && r[b] == entries[b]);
                } else {
                    assert(r[b] == entries[b]);
                }
            }
        } else {
            lemma_add_uses_lookup(rest, name, uses, other);
            let tail = add_uses(rest, name, uses);
            assert(r.drop_first() =~= tail);
            assert(r[0] == entries[0]);
            // Every name in the new tail is either `name` or one of the old tail's.
            assert forall|j: int| 0 <= j < tail.len() implies (#[trigger] tail[j]).0 != entries[0].0 by {
                lemma_add_uses_names(rest, name, uses, j);
                if tail[j].0 != name {
                    let k = choose|k: int| 0 <= k < rest.len() && rest[k].0 == tail[j].0;
                    assert(rest[k] == entries[k + 1]);
                }
            }
            assert forall|a: int, b: int| 0 <= a < b < r.len() implies (#[trigger] r[a]).0 != (
            #[trigger] r[b]).0 by {
                if a > 0 {
                    assert(r[a] == tail[a - 1] && r[b] == tail[b - 1]);
                } else {
                    assert(r[b] == tail[b - 1]);
                }
            }
        }
    } else {
        let r = add_uses(entries, name, uses);
        assert(r.drop_first() =~= Seq::<EntryModel>::empty());
        assert(lookup(r.drop_first(), other) is None);
    }
}

proof fn lemma_add_uses_names(entries: Seq<EntryModel>, name: Seq<char>, uses: Seq<InstanceModel>, j: int)
    requires
        0 <= j < add_uses(entries, name, uses).len(),
    ensures
        add_uses(entries, name, uses)[j].0 == name || exists|k: int|
            0 <= k < entries.len() && entries[k].0 == add_uses(entries, name, uses)[j].0,
    decreases entries.len(),
{
    if entries.len() > 0 && entries[0].0 != name && j > 0 {
        let rest = entries.drop_first();
        let r = add_uses(entries, name, uses);
        assert(r.drop_first() == add_uses(rest, name, uses));
        assert(r[j] == add_uses(rest, name, uses)[j - 1]);
        lemma_add_uses_names(rest, name, uses, j - 1);
        if r[j].0 != name {
            let k = choose|k: int| 0 <= k < rest.len() && rest[k].0 == r[j].0;
            assert(entries[k + 1] == rest[k]);
        }
    } else if entries.len() > 0 && j > 0 {
        assert(add_uses(entries, name, uses)[j] == entries[j]);
    } else if entries.len() > 0 && entries[0].0 != name {
        assert(add_uses(entries, name, uses)[0] == entries[0]);
    }
}

/// The entries of `other`, in order, each added to `entries` by `add_uses`.
pub open spec fn merged(entries: Seq<EntryModel>, other: Seq<EntryModel>) -> Seq<EntryModel>
    decreases other.len(),
{
    if other.len() == 0 {
        entries
    } else {
        merged(add_uses(entries, other[0].0, other[0].1), other.drop_first())
    }
}

/// No two entries share a name.
pub open spec fn names_unique(entries: Seq<EntryModel>) -> bool {
    forall|i: int, j: int|
        0 <= i < j < entries.len() ==> (#[trigger] entries[i]).0 != (#[trigger] entries[j]).0
}

/// The variables of a message: each name, once, with all of its uses in the
/// order they were recorded. Names keep the order in which they first came.
pub struct MessageVariables {
    names: Vec<String>,
    uses: Vec<Vec<MessageVariableInstance>>,
}

impl MessageVariables {
    /// The catalog's entries, in order.
    pub closed spec fn entries(&self) -> Seq<EntryModel> {
        Seq::new(
            self.names@.len(),
            |i: int| (self.names@[i]@, self.uses@[i]@.map_values(|u: MessageVariableInstance| u@)),
        )
    }

    pub closed spec fn wf(&self) -> bool {
        &&& self.names@.len() == self.uses@.len()
        &&& names_unique(self.entries())
    }

    /// A well-formed catalog never holds a name twice.
    pub proof fn lemma_wf_names_unique(&self)
        requires
            self.wf(),
        ensures
            names_unique(self.entries()),
    {
    }

    pub fn new() -> (r: MessageVariables)
        ensures
            r.wf(),
            r.entries() == Seq::<EntryModel>::empty(),
    {
        let r = MessageVariables { names: Vec::new(), uses: Vec::new() };
        assert(r.entries() =~= Seq::<EntryModel>::empty());
        r
    }

    /// The position of `name`'s entry, if any.
    fn position_of(&self, name: &String) -> (r: Option<usize>)
        requires
            self.wf(),
        ensures
            match r {
                Some(i) => i < self.names@.len() && self.entries()[i as int].0 == name@,
                None => forall|j: int|
                    0 <= j < self.names@.len() ==> (#[trigger] self.entries()[j]).0 != name@,
            },
    {
        let mut i: usize = 0;
        while i < self.names.len()
            invariant
                i <= self.names@.len(),
                forall|j: int| 0 <= j < i ==> (#[trigger] self.entries()[j]).0 != name@,
            decreases self.names@.len() - i,
        {
            if self.names[i] == *name {
                return Some(i);
            }
            i = i + 1;
        }
        None
    }

    /// Appends `list` to the uses of `name`, adding an entry when there is
    /// none.
    fn add_list(&mut self, name: String, list: Vec<MessageVariableInstance>)
        requires
            old(self).wf(),
        ensures
            final(self).wf(),
            final(self).entries() == add_uses(
                old(self).entries(),
                name@,
                list@.map_values(|u: MessageVariableInstance| u@),
            ),
    {
        let ghost before = self.entries();
        let ghost added = list@.map_values(|u: MessageVariableInstance| u@);
        let mut list = list;
        match self.position_of(&name) {
            Some(i) => {
                proof {
                    lemma_add_uses_found(before, name@, added, i as int);
                }
                let ghost old_uses = self.uses@[i as int]@;
                self.uses[i].append(&mut list);
                assert(self.uses@[i as int]@.map_values(|u: MessageVariableInstance| u@)
                    =~= old_uses.map_values(|u: MessageVariableInstance| u@) + added);
                assert(self.entries() =~= before.update(i as int, (name@, before[i as int].1 + added)));
            },
            None => {
                proof {
                    lemma_add_uses_absent(before, name@, added);
                }
                self.names.push(name);
                self.uses.push(list);
                assert(self.entries() =~= before.push((name@, added)));
            },
        }
    }

    /// Adds one use of a variable. The first use of a name creates its entry;
    /// later ones are appended to it.
    pub fn add_instance(&mut self, name: &str, kind: MessageVariableType, span: Option<usize>)
        requires
            old(self).wf(),
        ensures
            final(self).wf(),
            final(self).entries() == add_uses(old(self).entries(), name@, seq![(kind@, span)]),
    {
        let instance = MessageVariableInstance { kind, span };
        let mut list: Vec<MessageVariableInstance> = Vec::new();
        list.push(instance);
        assert(list@.map_values(|u: MessageVariableInstance| u@) =~= seq![(kind@, span)]);
        self.add_list(name.to_owned(), list);
    }

    /// Copies the uses of `other` into this catalog: each of its names, in
    /// order, has its uses appended to the same name here, which is created
    /// when absent.
    pub fn merge(&mut self, other: &MessageVariables)
        requires
            old(self).wf(),
            other.wf(),
        ensures
            final(self).wf(),
            final(self).entries() == merged(old(self).entries(), other.entries()),
    {
        let ghost start = self.entries();
        let mut j: usize = 0;
        assert(other.entries().subrange(0, other.names@.len() as int) =~= other.entries());
        while j < other.names.len()
            invariant
                self.wf(),
                other.wf(),
                j <= other.names@.len(),
                merged(start, other.entries()) == merged(
                    self.entries(),
                    other.entries().subrange(j as int, other.names@.len() as int),
                ),
            decreases other.names@.len() - j,
        {
            let source = &other.uses[j];
            let mut copy: Vec<MessageVariableInstance> = Vec::new();
            let mut k: usize = 0;
            while k < source.len()
                invariant
                    k <= source@.len(),
                    copy@.len() == k,
                    forall|m: int| 0 <= m < k ==> (#[trigger] copy@[m])@ == source@[m]@,
                decreases source@.len() - k,
            {
                copy.push(source[k].duplicate());
                k = k + 1;
            }
            let ghost rest = other.entries().subrange(j as int, other.names@.len() as int);
            assert(copy@.map_values(|u: MessageVariableInstance| u@) =~= other.entries()[j as int].1);
            assert(rest.drop_first() =~= other.entries().subrange(j + 1, other.names@.len() as int));
            self.add_list(other.names[j].clone(), copy);
            j = j + 1;
        }
        assert(other.entries().subrange(j as int, other.names@.len() as int)
            =~= Seq::<EntryModel>::empty());
    }

    /// The names of all variables in this message, in the order they first
    /// came.
    pub fn get_keys(&self) -> (r: Vec<String>)
        requires
            self.wf(),
        ensures
            r@.map_values(|k: String| k@) == self.entries().map_values(|e: EntryModel| e.0),
    {
        let mut r: Vec<String> = Vec::new();
        let mut i: usize = 0;
        while i < self.names.len()
            invariant
                i <= self.names@.len(),
                r@.len() == i,
                forall|m: int| 0 <= m < i ==> (#[trigger] r@[m])@ == self.names@[m]@,
            decreases self.names@.len() - i,
        {
            r.push(self.names[i].clone());
            i = i + 1;
        }
        assert(r@.map_values(|k: String| k@) =~= self.entries().map_values(|e: EntryModel| e.0));
        r
    }

    /// The number of distinct variable names.
    pub fn count(&self) -> (r: usize)
        requires
            self.wf(),
        ensures
            r == self.entries().len(),
    {
        self.names.len()
    }

    /// The uses recorded for `key`, if it is a variable of this message.
    pub fn get(&self, key: &str) -> (r: Option<&Vec<MessageVariableInstance>>)
        requires
            self.wf(),
        ensures
            r is Some <==> lookup(self.entries(), key@) is Some,
            r is Some ==> r->0@.map_values(|u: MessageVariableInstance| u@) == lookup(
                self.entries(),
                key@,
            )->0,
    {
        let name = key.to_owned();
        match self.position_of(&name) {
            Some(i) => {
                proof {
                    lemma_lookup_found(self.entries(), key@, i as int);
                }
                Some(&self.uses[i])
            },
            None => {
                proof {
                    lemma_lookup_absent(self.entries(), key@);
                }
                None
            },
        }
    }
}

proof fn lemma_lookup_found(entries: Seq<EntryModel>, name: Seq<char>, i: int)
    requires
        names_unique(entries),
        0 <= i < entries.len(),
        entries[i].0 == name,
    ensures
        lookup(entries, name) == Some(entries[i].1),
    decreases entries.len(),
{
    if i > 0 {
        assert(entries[0].0 != entries[i].0);
        lemma_lookup_found(entries.drop_first(), name, i - 1);
    }
}

proof fn lemma_lookup_absent(entries: Seq<EntryModel>, name: Seq<char>)
    requires
        forall|j: int| 0 <= j < entries.len() ==> (#[trigger] entries[j]).0 != name,
    ensures
        lookup(entries, name) is None,
    decreases entries.len(),
{
    if entries.len() > 0 {
        assert(entries[0].0 != name);
        lemma_lookup_absent(entries.drop_first(), name);
    }
}

proof fn lemma_add_uses_found(entries: Seq<EntryModel>, name: Seq<char>, uses: Seq<InstanceModel>, i: int)
    requires
        names_unique(entries),
        0 <= i < entries.len(),
        entries[i].0 == name,
    ensures
        add_uses(entries, name, uses) == entries.update(i, (name, entries[i].1 + uses)),
    decreases entries.len(),
{
    if i == 0 {
        assert(add_uses(entries, name, uses) =~= entries.update(i, (name, entries[i].1 + uses)));
    } else {
        assert(entries[0].0 != entries[i].0);
        let rest = entries.drop_first();
        assert forall|a: int, b: int| 0 <= a < b < rest.len() implies (#[trigger] rest[a]).0
            != (#[trigger] rest[b]).0 by {
            assert(rest[a] == entries[a + 1] && rest[b] == entries[b + 1]);
        }
        lemma_add_uses_found(rest, name, uses, i - 1);
        assert(add_uses(entries, name, uses) =~= entries.update(i, (name, entries[i].1 + uses)));
    }
}

proof fn lemma_add_uses_absent(entries: Seq<EntryModel>, name: Seq<char>, uses: Seq<InstanceModel>)
    requires
        forall|j: int| 0 <= j < entries.len() ==> (#[trigger] entries[j]).0 != name,
    ensures
        add_uses(entries, name, uses) == entries.push((name, uses)),
    decreases entries.len(),
{
    if entries.len() > 0 {
        assert(entries[0].0 != name);
        let rest = entries.drop_first();
        assert forall|j: int| 0 <= j < rest.len() implies (#[trigger] rest[j]).0 != name by {
            assert(rest[j] == entries[j + 1]);
        }
        lemma_add_uses_absent(rest, name, uses);
        assert(add_uses(entries, name, uses) =~= entries.push((name, uses)));
    } else {
        assert(add_uses(entries, name, uses) =~= entries.push((name, uses)));
    }
}

} // verus!
