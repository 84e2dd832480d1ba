//! The environment: a finite map from names to values.

use crate::types::LalaType;
use crate::types::ValueModel;
use vstd::prelude::*;

verus! {

/// One name with the value bound to it.
#[derive(Debug)]
pub struct Binding {
    pub name: String,
    pub value: LalaType,
}

/// The map that a list of bindings denotes: a later binding of a name
/// overrides an earlier one.
pub open spec fn bindings_model(entries: Seq<Binding>) -> Map<Seq<char>, ValueModel>
    decreases entries.len(),
{
    if entries.len() == 0 {
        Map::empty()
    } else {
        bindings_model(entries.drop_last()).insert(entries.last().name@, entries.last().value@)
    }
}

/// No name is bound twice.
pub open spec fn names_distinct(entries: Seq<Binding>) -> bool {
    forall|i: int, j: int|
        0 <= i < j < entries.len() ==> (#[trigger] entries[i]).name@ != (#[trigger] entries[j]).name@
}

/// A name that no binding has is not in the map.
pub proof fn lemma_absent(entries: Seq<Binding>, name: Seq<char>)
    requires
        forall|i: int| 0 <= i < entries.len() ==> (#[trigger] entries[i]).name@ != name,
    ensures
        !bindings_model(entries).contains_key(name),
    decreases entries.len(),
{
    if entries.len() > 0 {
        let front = entries.drop_last();
        assert forall|i: int| 0 <= i < front.len() implies (#[trigger] front[i]).name@ != name by {
            assert(front[i] == entries[i]);
        }
        lemma_absent(front, name);
    }
}

/// Where no name is bound twice, the map sends a bound name to the value of
/// its one binding.
pub proof fn lemma_present(entries: Seq<Binding>, i: int)
    requires
        names_distinct(entries),
        0 <= i < entries.len(),
    ensures
        bindings_model(entries).contains_key(entries[i].name@),
        bindings_model(entries)[entries[i].name@] == entries[i].value@,
    decreases entries.len(),
{
    let front = entries.drop_last();
    if i < entries.len() - 1 {
        assert forall|a: int, b: int| 0 <= a < b < front.len() implies (#[trigger] front[a]).name@
            != (#[trigger] front[b]).name@ by {
            assert(front[a] == entries[a]);
            assert(front[b] == entries[b]);
        }
        assert(front[i] == entries[i]);
        lemma_present(front, i);
        assert(entries[i].name@ != entries.last().name@);
    }
}

/// Replacing the one binding of a name changes the map at that name only.
pub proof fn lemma_replace(entries: Seq<Binding>, i: int, binding: Binding)
    requires
        names_distinct(entries),
        0 <= i < entries.len(),
        binding.name@ == entries[i].name@,
    ensures
        names_distinct(entries.update(i, binding)),
        bindings_model(entries.update(i, binding)) == bindings_model(entries).insert(
            binding.name@,
            binding.value@,
        ),
    decreases entries.len(),
{
    let updated = entries.update(i, binding);
    let front = entries.drop_last();
    assert forall|a: int, b: int| 0 <= a < b < updated.len() implies (#[trigger] updated[a]).name@
        != (#[trigger] updated[b]).name@ by {
        assert(updated[a].name@ == entries[a].name@);
        assert(updated[b].name@ == entries[b].name@);
    }
    if i == entries.len() - 1 {
        assert(updated.drop_last() =~= front);
        assert(bindings_model(updated) =~= bindings_model(entries).insert(
            binding.name@,
            binding.value@,
        ));
    } else {
        assert forall|a: int, b: int| 0 <= a < b < front.len() implies (#[trigger] front[a]).name@
            != (#[trigger] front[b]).name@ by {
            assert(front[a] == entries[a]);
            assert(front[b] == entries[b]);
        }
        assert(front[i] == entries[i]);
        lemma_replace(front, i, binding);
        assert(updated.drop_last() =~= front.update(i, binding));
        assert(updated.last() == entries.last());
        assert(entries[i].name@ != entries.last().name@);
        assert(bindings_model(updated) =~= bindings_model(entries).insert(
            binding.name@,
            binding.value@,
        ));
    }
}

/// Where no name is bound twice, the map binds as many names as there are
/// bindings.
pub proof fn lemma_domain_size(entries: Seq<Binding>)
    requires
        names_distinct(entries),
    ensures
        bindings_model(entries).dom().finite(),
        bindings_model(entries).dom().len() == entries.len(),
    decreases entries.len(),
{
    if entries.len() > 0 {
        let front = entries.drop_last();
        assert forall|a: int, b: int| 0 <= a < b < front.len() implies (#[trigger] front[a]).name@
            != (#[trigger] front[b]).name@ by {
            assert(front[a] == entries[a]);
            assert(front[b] == entries[b]);
        }
        lemma_domain_size(front);
        assert forall|i: int| 0 <= i < front.len() implies (#[trigger] front[i]).name@
            != entries.last().name@ by {
            assert(front[i] == entries[i]);
        }
        lemma_absent(front, entries.last().name@);
        assert(bindings_model(entries).dom() =~= bindings_model(front).dom().insert(
            entries.last().name@,
        ));
    } else {
        assert(bindings_model(entries).dom() =~= Set::<Seq<char>>::empty());
    }
}

/// Two lists of bindings that say the same, entry by entry, denote one map.
pub proof fn lemma_same_bindings(a: Seq<Binding>, b: Seq<Binding>)
    requires
        a.len() == b.len(),
        forall|i: int|
            0 <= i < a.len() ==> (#[trigger] a[i]).name@ == b[i].name@ && a[i].value@ == b[i].value@,
    ensures
        bindings_model(a) == bindings_model(b),
    decreases a.len(),
{
    if a.len() > 0 {
        let fa = a.drop_last();
        let fb = b.drop_last();
        assert forall|i: int| 0 <= i < fa.len() implies (#[trigger] fa[i]).name@ == fb[i].name@
            && fa[i].value@ == fb[i].value@ by {
            assert(fa[i] == a[i]);
            assert(fb[i] == b[i]);
        }
        lemma_same_bindings(fa, fb);
        assert(a.last() == a[a.len() - 1]);
        assert(b.last() == b[b.len() - 1]);
    }
}

/// A mapping from names to values in which every name occurs once.
#[derive(Debug)]
pub struct Env {
    entries: Vec<Binding>,
}

impl View for Env {
    type V = Map<Seq<char>, ValueModel>;

    closed spec fn view(&self) -> Map<Seq<char>, ValueModel> {
        bindings_model(self.entries@)
    }
}

impl Env {
    #[verifier::type_invariant]
    spec fn inv(self) -> bool {
        names_distinct(self.entries@)
    }

    /// The environment that binds nothing.
    pub fn new() -> (env: Env)
        ensures
            env@ == Map::<Seq<char>, ValueModel>::empty(),
    {
        Env { entries: Vec::new() }
    }

    /// The number of names bound.
    pub fn len(&self) -> (n: usize)
        ensures
            self@.dom().finite(),
            n == self@.dom().len(),
    {
        proof {
            use_type_invariant(self);
            lemma_domain_size(self.entries@);
        }
        self.entries.len()
    }

    /// The position of the binding of `name`, if it has one.
    fn position(&self, name: &String) -> (r: Option<usize>)
        ensures
            match r {
                Some(i) => i < self.entries@.len() && self.entries@[i as int].name@ == name@,
                None => forall|i: int|
                    0 <= i < self.entries@.len() ==> (#[trigger] self.entries@[i]).name@ != name@,
            },
    {
        let mut i: usize = 0;
        while i < self.entries.len()
            invariant
                i <= self.entries@.len(),
                forall|k: int| 0 <= k < i ==> (#[trigger] self.entries@[k]).name@ != name@,
            decreases self.entries@.len() - i,
        {
            if self.entries[i].name == *name {
                return Some(i);
            }
            i += 1;
        }
        None
    }

    /// The value bound to `name`, if there is one.
    pub fn get(&self, name: &String) -> (r: Option<&LalaType>)
        ensures
            match r {
                Some(value) => self@.contains_key(name@) && value@ == self@[name@],
                None => !self@.contains_key(name@),
            },
    {
        proof {
            use_type_invariant(self);
        }
        match self.position(name) {
            Some(i) => {
                proof {
                    lemma_present(self.entries@, i as int);
                }
                Some(&self.entries[i].value)
            },
            None => {
                proof {
                    lemma_absent(self.entries@, name@);
                }
                None
            },
        }
    }

    /// Whether `name` is bound.
    pub fn contains_key(&self, name: &String) -> (r: bool)
        ensures
            r == self@.contains_key(name@),
    {
        self.get(name).is_some()
    }

    /// Binds `name` to `value`, in place of what it was bound to before.
    pub fn insert(&mut self, name: String, value: LalaType)
        ensures
            final(self)@ == old(self)@.insert(name@, value@),
    {
        proof {
            use_type_invariant(&*self);
        }
        match self.position(&name) {
            Some(i) => {
                let binding = Binding { name, value };
                let mut entries: Vec<Binding> = Vec::new();
                core::mem::swap(&mut self.entries, &mut entries);
                proof {
                    lemma_replace(entries@, i as int, binding);
                }
                entries.set(i, binding);
                core::mem::swap(&mut self.entries, &mut entries);
            },
            None => {
                let binding = Binding { name, value };
                let mut entries: Vec<Binding> = Vec::new();
                core::mem::swap(&mut self.entries, &mut entries);
                let ghost before = entries@;
                entries.push(binding);
                proof {
                    assert(entries@.drop_last() =~= before);
                    assert forall|a: int, b: int| 0 <= a < b < entries@.len() implies (
                    #[trigger] entries@[a]).name@ != (#[trigger] entries@[b]).name@ by {
                        if b < before.len() {
                            assert(entries@[a] == before[a]);
                            assert(entries@[b] == before[b]);
                        } else {
                            assert(entries@[a] == before[a]);
                        }
                    }
                }
                core::mem::swap(&mut self.entries, &mut entries);
            },
        }
    }
}

impl Clone for Env {
    /// An independent copy that binds the same names to the same values.
    fn clone(&self) -> (copy: Env)
        ensures
            copy@ == self@,
    {
        proof {
            use_type_invariant(self);
        }
        let mut entries: Vec<Binding> = Vec::new();
        let mut i: usize = 0;
        while i < self.entries.len()
            invariant
                i <= self.entries@.len(),
                entries@.len() == i,
                forall|k: int|
                    0 <= k < i ==> (#[trigger] entries@[k]).name@ == self.entries@[k].name@
                        && entries@[k].value@ == self.entries@[k].value@,
            decreases self.entries@.len() - i,
        {
            let binding = &self.entries[i];
            entries.push(Binding { name: binding.name.clone(), value: binding.value.clone() });
            i += 1;
        }
        proof {
            lemma_same_bindings(entries@, self.entries@);
            assert forall|a: int, b: int| 0 <= a < b < entries@.len() implies (#[trigger] entries@[a]).name@
                != (#[trigger] entries@[b]).name@ by {
                assert(entries@[a].name@ == self.entries@[a].name@);
                assert(entries@[b].name@ == self.entries@[b].name@);
            }
        }
        Env { entries }
    }
}

} // verus!
