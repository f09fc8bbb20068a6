use crate::text::texts;
use crate::waveform::{Hierarchy, Net, Scope};
use vstd::prelude::*;

verus! {

/// The pieces of `s` between the occurrences of `sep`. A text without `sep` is one piece,
/// and so is the empty text.
pub open spec fn split_text(s: Seq<char>, sep: char) -> Seq<Seq<char>>
    decreases s.len(),
{
    if s.len() == 0 {
        seq![Seq::empty()]
    } else {
        let before = split_text(s.drop_last(), sep);
        if s.last() == sep {
            before.push(Seq::empty())
        } else {
            before.drop_last().push(before.last().push(s.last()))
        }
    }
}

/// Splits `s` at each `sep`.
pub fn split_on(s: &str, sep: char) -> (parts: Vec<String>)
    ensures
        texts(parts@) == split_text(s@, sep),
{
    let mut parts: Vec<String> = Vec::new();
    let mut current = String::new();
    proof {
        assert(s@.take(0) =~= Seq::<char>::empty());
        assert(texts(parts@).push(current@) =~= split_text(s@.take(0), sep));
    }
    for c in it: s.chars()
        invariant
            it.seq() == s@,
            texts(parts@).push(current@) == split_text(
                s@.take(it.index() as int),
                sep,
            ),
    {
        proof {
            let i = it.index() as int;
            assert(s@.take(i + 1).drop_last() =~= s@.take(i));
            assert(s@.take(i + 1).last() == c);
        }
        let ghost done = texts(parts@);
        let ghost piece = current@;
        if c == sep {
            parts.push(current);
            current = String::new();
            proof {
                assert(texts(parts@) =~= done.push(piece));
                assert(texts(parts@).push(current@) =~= done.push(piece).push(
                    Seq::empty(),
                ));
            }
        } else {
            current.push(c);
            proof {
                assert(done.push(piece).drop_last() =~= done);
            }
        }
    }
    proof {
        assert(s@.take(s@.len() as int) =~= s@);
    }
    let ghost done = texts(parts@);
    parts.push(current);
    proof {
        assert(texts(parts@) =~= done.push(current@));
    }
    parts
}

/// The position among `scopes` of the first scope called `name`, if there is one.
pub open spec fn first_named(scopes: Seq<Scope>, name: Seq<char>) -> Option<usize>
    decreases scopes.len(),
{
    if scopes.len() == 0 {
        None
    } else {
        match first_named(scopes.drop_last(), name) {
            Some(i) => Some(i),
            None => if scopes.last().name@ == name {
                Some((scopes.len() - 1) as usize)
            } else {
                None
            },
        }
    }
}

/// The steps that lead from among `scopes` to the scope with the path `names`: at each
/// level the first scope of that name is taken. There are none if a name is missing, or if
/// `names` is empty.
pub open spec fn lookup_steps(scopes: Seq<Scope>, names: Seq<Seq<char>>) -> Option<Seq<usize>>
    decreases names.len(),
{
    if names.len() == 0 {
        None
    } else {
        match first_named(scopes, names[0]) {
            None => None,
            Some(i) => if names.len() == 1 {
                Some(seq![i])
            } else if i < scopes.len() {
                match lookup_steps(scopes[i as int].scopes@, names.drop_first()) {
                    None => None,
                    Some(rest) => Some(seq![i] + rest),
                }
            } else {
                None
            },
        }
    }
}

/// The names of the scopes that the steps `steps` pass from among `scopes`, the last one
/// included; none if the steps lead nowhere.
pub open spec fn path_names(scopes: Seq<Scope>, steps: Seq<usize>) -> Option<Seq<Seq<char>>>
    decreases steps.len(),
{
    if steps.len() == 0 {
        Some(Seq::empty())
    } else if steps[0] >= scopes.len() {
        None
    } else {
        match path_names(scopes[steps[0] as int].scopes@, steps.drop_first()) {
            None => None,
            Some(rest) => Some(seq![scopes[steps[0] as int].name@] + rest),
        }
    }
}

/// The nets of `scope` and of all scopes below it: those of the scope itself first, then
/// those of each child scope in turn.
pub open spec fn scope_nets(scope: Scope) -> Seq<Net>
    decreases scope, 1int,
{
    scope.nets@ + scopes_nets(scope.scopes@)
}

/// The nets of the scopes `scopes` and of all scopes below them.
pub open spec fn scopes_nets(scopes: Seq<Scope>) -> Seq<Net>
    decreases scopes, 0int,
{
    if scopes.len() == 0 {
        Seq::empty()
    } else {
        scopes_nets(scopes.drop_last()) + scope_nets(scopes.last())
    }
}

/// The scope to which the steps `steps` lead from among `scopes`, if they lead to one.
pub open spec fn scope_at(scopes: Seq<Scope>, steps: Seq<usize>) -> Option<Scope>
    decreases steps.len(),
{
    if steps.len() == 0 || steps[0] >= scopes.len() {
        None
    } else if steps.len() == 1 {
        Some(scopes[steps[0] as int])
    } else {
        scope_at(scopes[steps[0] as int].scopes@, steps.drop_first())
    }
}

fn find_first_named(scopes: &Vec<Scope>, name: &String) -> (found: Option<usize>)
    ensures
        found == first_named(scopes@, name@),
        found matches Some(i) ==> i < scopes.len() && scopes@[i as int].name@ == name@,
{
    let mut i: usize = 0;
    while i < scopes.len()
        invariant
            i <= scopes.len(),
            first_named(scopes@.take(i as int), name@) is None,
        decreases scopes.len() - i,
    {
        proof {
            assert(scopes@.take(i + 1).drop_last() =~= scopes@.take(i as int));
        }
        if scopes[i].name == *name {
            proof {
                lemma_first_named_stays(scopes@, name@, i + 1);
            }
            return Some(i);
        }
        i += 1;
    }
    proof {
        assert(scopes@.take(scopes.len() as int) =~= scopes@);
    }
    None
}

/// A scope found among the first `upto` scopes is found among them all.
proof fn lemma_first_named_stays(scopes: Seq<Scope>, name: Seq<char>, upto: int)
    requires
        0 <= upto <= scopes.len(),
        first_named(scopes.take(upto), name) is Some,
    ensures
        first_named(scopes, name) == first_named(scopes.take(upto), name),
    decreases scopes.len() - upto,
{
    if upto < scopes.len() {
        assert(scopes.take(upto + 1).drop_last() =~= scopes.take(upto));
        lemma_first_named_stays(scopes, name, upto + 1);
    } else {
        assert(scopes.take(upto) =~= scopes);
    }
}

fn push_scope_nets<'s>(found: &mut Vec<&'s Net>, scope: &'s Scope)
    ensures
        refs_of(final(found)@) == refs_of(old(found)@) + scope_nets(*scope),
    decreases scope,
{
    let ghost before = refs_of(found@);
    let mut i: usize = 0;
    while i < scope.nets.len()
        invariant
            i <= scope.nets.len(),
            refs_of(found@) == before + scope.nets@.take(i as int),
        decreases scope.nets.len() - i,
    {
        let ghost so_far = found@;
        found.push(&scope.nets[i]);
        proof {
            assert(refs_of(found@) =~= refs_of(so_far).push(scope.nets@[i as int]));
            assert(refs_of(found@) =~= before + scope.nets@.take(i + 1));
        }
        i += 1;
    }
    proof {
        assert(scope.nets@.take(scope.nets.len() as int) =~= scope.nets@);
    }
    let mut k: usize = 0;
    while k < scope.scopes.len()
        invariant
            k <= scope.scopes.len(),
            refs_of(found@) == before + scope.nets@ + scopes_nets(scope.scopes@.take(k as int)),
        decreases scope.scopes.len() - k,
    {
        proof {
            assert(scope.scopes@.take(k + 1).drop_last() =~= scope.scopes@.take(k as int));
        }
        push_scope_nets(found, &scope.scopes[k]);
        proof {
            assert(refs_of(found@) =~= before + scope.nets@ + scopes_nets(
                scope.scopes@.take(k + 1),
            ));
        }
        k += 1;
    }
    proof {
        assert(scope.scopes@.take(scope.scopes.len() as int) =~= scope.scopes@);
        assert(refs_of(found@) =~= before + scope_nets(*scope));
    }
}

/// Gives the nets of `scope` and of all scopes below it.
pub fn scope_var_refs<'s>(scope: &'s Scope) -> (refs: Vec<&'s Net>)
    ensures
        refs_of(refs@) == scope_nets(*scope),
{
    let mut refs: Vec<&'s Net> = Vec::new();
    proof {
        assert(refs_of(refs@) =~= Seq::<Net>::empty());
    }
    push_scope_nets(&mut refs, scope);
    proof {
        assert(Seq::<Net>::empty() + scope_nets(*scope) =~= scope_nets(*scope));
    }
    refs
}

/// The nets that a list of references refers to.
pub open spec fn refs_of(refs: Seq<&Net>) -> Seq<Net> {
    refs.map_values(|net: &Net| *net)
}

/// All the nets of a hierarchy: those outside any scope first, then those of each top-level
/// scope and of all below it.
pub open spec fn hierarchy_nets(hier: Hierarchy) -> Seq<Net> {
    hier.nets@ + scopes_nets(hier.scopes@)
}

/// Gives all the nets of a hierarchy.
pub trait VarRefsIter {
    /// All the nets, in the order in which they are given.
    spec fn all_nets(&self) -> Seq<Net>;

    fn var_refs_iter<'s>(&'s self) -> (refs: Vec<&'s Net>)
        ensures
            refs_of(refs@) == self.all_nets(),
    ;
}

impl VarRefsIter for Hierarchy {
    open spec fn all_nets(&self) -> Seq<Net> {
        hierarchy_nets(*self)
    }

    fn var_refs_iter<'s>(&'s self) -> (refs: Vec<&'s Net>) {
        let mut refs: Vec<&'s Net> = Vec::new();
        let mut i: usize = 0;
        while i < self.nets.len()
            invariant
                i <= self.nets.len(),
                refs_of(refs@) == self.nets@.take(i as int),
            decreases self.nets.len() - i,
        {
            let ghost so_far = refs@;
            refs.push(&self.nets[i]);
            proof {
                assert(refs_of(refs@) =~= refs_of(so_far).push(self.nets@[i as int]));
                assert(refs_of(refs@) =~= self.nets@.take(i + 1));
            }
            i += 1;
        }
        proof {
            assert(self.nets@.take(self.nets.len() as int) =~= self.nets@);
        }
        let mut k: usize = 0;
        while k < self.scopes.len()
            invariant
                k <= self.scopes.len(),
                refs_of(refs@) == self.nets@ + scopes_nets(self.scopes@.take(k as int)),
            decreases self.scopes.len() - k,
        {
            proof {
                assert(self.scopes@.take(k + 1).drop_last() =~= self.scopes@.take(k as int));
            }
            push_scope_nets(&mut refs, &self.scopes[k]);
            proof {
                assert(refs_of(refs@) =~= self.nets@ + scopes_nets(self.scopes@.take(k + 1)));
            }
            k += 1;
        }
        proof {
            assert(self.scopes@.take(self.scopes.len() as int) =~= self.scopes@);
        }
        refs
    }
}

impl Hierarchy {
    /// Finds the scope with the path `names`, taking at each level the first scope of that
    /// name, and gives the steps that lead to it.
    pub fn lookup_scope(&self, names: &Vec<String>) -> (steps: Option<Vec<usize>>)
        ensures
            match lookup_steps(self.scopes@, texts(names@)) {
                Some(way) => steps is Some && steps->0@ == way,
                None => steps is None,
            },
    {
        let ghost all = texts(names@);
        let mut steps: Vec<usize> = Vec::new();
        let mut scopes: &Vec<Scope> = &self.scopes;
        let mut k: usize = 0;
        if names.len() == 0 {
            return None;
        }
        proof {
            assert(all.skip(0) =~= all);
        }
        loop
            invariant
                k < names.len(),
                all == texts(names@),
                lookup_steps(self.scopes@, all) == match lookup_steps(scopes@, all.skip(k as int)) {
                    None => None,
                    Some(rest) => Some(steps@ + rest),
                },
            decreases names.len() - k,
        {
            proof {
                assert(all.skip(k as int)[0] == names@[k as int]@);
                assert(all.skip(k as int).drop_first() =~= all.skip(k + 1));
            }
            match find_first_named(scopes, &names[k]) {
                None => {
                    return None;
                },
                Some(i) => {
                    let ghost before = steps@;
                    steps.push(i);
                    if k + 1 == names.len() {
                        proof {
                            assert(steps@ =~= before + seq![i]);
                        }
                        return Some(steps);
                    }
                    proof {
                        match lookup_steps(scopes@[i as int].scopes@, all.skip(k + 1)) {
                            None => {},
                            Some(rest) => {
                                assert(before + (seq![i] + rest) =~= steps@ + rest);
                            },
                        }
                    }
                    scopes = &scopes[i].scopes;
                    k += 1;
                },
            }
        }
    }

    /// The names of the scopes on the way that `steps` lead, the last one included.
    pub fn scope_names(&self, steps: &Vec<usize>) -> (names: Option<Vec<String>>)
        ensures
            match path_names(self.scopes@, steps@) {
                Some(way) => names is Some && texts(names->0@) == way,
                None => names is None,
            },
    {
        let mut names: Vec<String> = Vec::new();
        let mut scopes: &Vec<Scope> = &self.scopes;
        let mut k: usize = 0;
        proof {
            assert(steps@.skip(0) =~= steps@);
            assert(texts(names@) =~= Seq::<Seq<char>>::empty());
        }
        while k < steps.len()
            invariant
                k <= steps.len(),
                path_names(self.scopes@, steps@) == match path_names(
                    scopes@,
                    steps@.skip(k as int),
                ) {
                    None => None,
                    Some(rest) => Some(texts(names@) + rest),
                },
            decreases steps.len() - k,
        {
            let step: usize = steps[k];
            proof {
                assert(steps@.skip(k as int)[0] == step);
                assert(steps@.skip(k as int).drop_first() =~= steps@.skip(k + 1));
            }
            if step >= scopes.len() {
                return None;
            }
            let ghost before = texts(names@);
            names.push(scopes[step].name.clone());
            proof {
                assert(texts(names@) =~= before.push(scopes@[step as int].name@));
                match path_names(scopes@[step as int].scopes@, steps@.skip(k + 1)) {
                    None => {},
                    Some(rest) => {
                        assert(before + (seq![scopes@[step as int].name@] + rest)
                            =~= texts(names@) + rest);
                    },
                }
            }
            scopes = &scopes[step].scopes;
            k += 1;
        }
        proof {
            assert(steps@.skip(steps.len() as int).len() == 0);
            assert(texts(names@) + Seq::<Seq<char>>::empty() =~= texts(
                names@,
            ));
        }
        Some(names)
    }

    /// The scope to which `steps` lead.
    pub fn scope<'s>(&'s self, steps: &Vec<usize>) -> (found: Option<&'s Scope>)
        ensures
            match scope_at(self.scopes@, steps@) {
                Some(scope) => found is Some && *found->0 == scope,
                None => found is None,
            },
    {
        let mut scopes: &'s Vec<Scope> = &self.scopes;
        let mut k: usize = 0;
        proof {
            assert(steps@.skip(0) =~= steps@);
        }
        loop
            invariant
                k <= steps.len(),
                scope_at(self.scopes@, steps@) == scope_at(scopes@, steps@.skip(k as int)),
            decreases steps.len() - k,
        {
            if k >= steps.len() {
                return None;
            }
            let step: usize = steps[k];
            proof {
                assert(steps@.skip(k as int)[0] == step);
                assert(steps@.skip(k as int).drop_first() =~= steps@.skip(k + 1));
            }
            if step >= scopes.len() {
                return None;
            }
            if k + 1 == steps.len() {
                return Some(&scopes[step]);
            }
            scopes = &scopes[step].scopes;
            k += 1;
        }
    }
}

/// Finds the scope whose names, from the top of the hierarchy down and joined by dots, read
/// `scope_str`, and gives the steps that lead to it.
pub fn get_scope_by_full_name(hier: &Hierarchy, scope_str: &str) -> (steps: Option<Vec<usize>>)
    ensures
        match lookup_steps(hier.scopes@, split_text(scope_str@, '.')) {
            Some(way) => steps is Some && steps->0@ == way,
            None => steps is None,
        },
{
    let names = split_on(scope_str, '.');
    hier.lookup_scope(&names)
}

} // verus!
