//! A list of name bindings read as a map: a later binding of a name hides an earlier one.
use vstd::prelude::*;

verus! {

pub open spec fn bindings_map<V>(g: Seq<(String, V)>) -> Map<Seq<char>, V>
    decreases g.len(),
{
    if g.len() == 0 {
        Map::empty()
    } else {
        bindings_map(g.drop_last()).insert(g.last().0@, g.last().1)
    }
}

pub proof fn lemma_bindings_push<V>(g: Seq<(String, V)>, x: (String, V))
    ensures
        bindings_map(g.push(x)) == bindings_map(g).insert(x.0@, x.1),
{
    assert(g.push(x).drop_last() =~= g);
}

/// Rebinding the last binding of a name changes only that name.
pub proof fn lemma_bindings_update<V>(g: Seq<(String, V)>, i: int, k: String, v: V)
    requires
        0 <= i < g.len(),
        k@ == g[i].0@,
        forall|j: int| i < j < g.len() ==> (#[trigger] g[j]).0@ != g[i].0@,
    ensures
        bindings_map(g.update(i, (k, v))) == bindings_map(g).insert(k@, v),
    decreases g.len(),
{
    let u = g.update(i, (k, v));
    if i == g.len() - 1 {
        assert(u.drop_last() =~= g.drop_last());
        assert(bindings_map(u) =~= bindings_map(g).insert(g[i].0@, v));
    } else {
        assert(u.drop_last() =~= g.drop_last().update(i, (k, v)));
        lemma_bindings_update(g.drop_last(), i, k, v);
        assert(g.last().0@ != g[i].0@);
        assert(bindings_map(u) =~= bindings_map(g).insert(g[i].0@, v));
    }
}

/// A name is bound to its last binding; a name with no binding is not bound.
pub proof fn lemma_bindings_lookup<V>(g: Seq<(String, V)>, name: Seq<char>, i: int)
    requires
        -1 <= i < g.len(),
        i >= 0 ==> g[i].0@ == name,
        forall|j: int| i < j < g.len() ==> (#[trigger] g[j]).0@ != name,
    ensures
        i >= 0 ==> bindings_map(g).contains_key(name) && bindings_map(g)[name] == g[i].1,
        i < 0 ==> !bindings_map(g).contains_key(name),
    decreases g.len(),
{
    if g.len() > 0 && i < g.len() - 1 {
        lemma_bindings_lookup(g.drop_last(), name, i);
    }
}

/// The position of the last binding of `name`, if any.
pub fn find_last<V>(g: &Vec<(String, V)>, name: &String) -> (r: Option<usize>)
    ensures
        match r {
            Some(i) => i < g@.len() && g@[i as int].0@ == name@ && bindings_map(g@).contains_key(
                name@,
            ) && bindings_map(g@)[name@] == g@[i as int].1 && forall|j: int|
                i < j < g@.len() ==> (#[trigger] g@[j]).0@ != name@,
            None => !bindings_map(g@).contains_key(name@),
        },
{
    let mut i = g.len();
    while i > 0
        invariant
            i <= g@.len(),
            forall|j: int| i <= j < g@.len() ==> (#[trigger] g@[j]).0@ != name@,
        decreases i,
    {
        if g[i - 1].0 == *name {
            proof {
                lemma_bindings_lookup(g@, name@, i - 1);
            }
            return Some(i - 1);
        }
        i = i - 1;
    }
    proof {
        lemma_bindings_lookup(g@, name@, -1);
    }
    None
}

} // verus!
