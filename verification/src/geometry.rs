//! The tree of geometries of a device, as far as links into it are resolved: each geometry
//! with its name and its child geometries.

use vstd::prelude::*;
use crate::validation::{find_by_name, first_named, opt_name, present_names, Named};
use crate::values::{names_view, Name};

verus! {

/// A geometry of a device: a physical or logical part, with the geometries it holds.
#[derive(Debug)]
pub struct Geometry {
    /// The unique name of the geometry.
    pub name: Option<Name>,
    /// The geometries held by this geometry.
    pub children: Vec<Geometry>,
}

impl Named for Geometry {
    open spec fn name_view(&self) -> Option<Seq<char>> {
        opt_name(self.name)
    }

    fn name_ref(&self) -> (r: Option<&Name>) {
        self.name.as_ref()
    }
}

/// The geometries of the forest `geometries` in depth-first order: each geometry comes before
/// its children, and all of them before the next geometry of the same level.
pub open spec fn preorder(geometries: Seq<Geometry>) -> Seq<Geometry>
    decreases geometries,
{
    if geometries.len() == 0 {
        Seq::<Geometry>::empty()
    } else {
        let last = geometries.last();
        proof {
            assert(decreases_to!(geometries => geometries[geometries.len() - 1]));
            assert(decreases_to!(geometries[geometries.len() - 1] => geometries[geometries.len() - 1].children));
            assert(decreases_to!(geometries[geometries.len() - 1].children => geometries[geometries.len() - 1].children@));
        }
        preorder(geometries.drop_last()) + seq![last] + preorder(last.children@)
    }
}

/// Depth-first order of two forests one after the other is that of the first, then that of
/// the second.
pub proof fn lemma_preorder_append(a: Seq<Geometry>, b: Seq<Geometry>)
    ensures
        preorder(a + b) == preorder(a) + preorder(b),
    decreases b.len(),
{
    if b.len() == 0 {
        assert(a + b =~= a);
        assert(preorder(a) + preorder(b) =~= preorder(a));
    } else {
        lemma_preorder_append(a, b.drop_last());
        assert((a + b).drop_last() =~= a + b.drop_last());
        assert((a + b).last() == b.last());
        assert(preorder(a + b) =~= preorder(a) + preorder(b));
    }
}

/// Depth-first order of a forest is that of its first `i` geometries, then the geometry at `i`
/// and its descendants, then that of the geometries after it.
pub proof fn lemma_preorder_split(gs: Seq<Geometry>, i: int)
    requires
        0 <= i < gs.len(),
    ensures
        preorder(gs) == preorder(gs.subrange(0, i)) + seq![gs[i]] + preorder(gs[i].children@)
            + preorder(gs.subrange(i + 1, gs.len() as int)),
{
    let head = gs.subrange(0, i + 1);
    let tail = gs.subrange(i + 1, gs.len() as int);
    assert(gs =~= head + tail);
    lemma_preorder_append(head, tail);
    assert(head.drop_last() =~= gs.subrange(0, i));
    assert(head.last() == gs[i]);
}

/// The first of `a + b` with a name is the first of `a` with it, or else the first of `b`.
pub proof fn lemma_first_named_append<T: Named>(a: Seq<T>, b: Seq<T>, name: Seq<char>)
    ensures
        first_named(a + b, name) == (match first_named(a, name) {
            Some(k) => Some(k),
            None => match first_named(b, name) {
                Some(k) => Some(k + a.len()),
                None => None,
            },
        }),
    decreases a.len(),
{
    if a.len() == 0 {
        assert(a + b =~= b);
    } else {
        assert((a + b)[0] == a[0]);
        if a[0].name_view() != Some(name) {
            lemma_first_named_append(a.drop_first(), b, name);
            assert((a + b).drop_first() =~= a.drop_first() + b);
        }
    }
}

/// The names carried by two sequences one after the other are those of the first, then those
/// of the second.
pub proof fn lemma_present_names_append<T: Named>(a: Seq<T>, b: Seq<T>)
    ensures
        present_names(a + b) == present_names(a) + present_names(b),
    decreases b.len(),
{
    if b.len() == 0 {
        assert(a + b =~= a);
        assert(present_names(a) + present_names(b) =~= present_names(a));
    } else {
        lemma_present_names_append(a, b.drop_last());
        assert((a + b).drop_last() =~= a + b.drop_last());
        assert((a + b).last() == b.last());
        match b.last().name_view() {
            Some(n) => {
                assert(present_names(a + b) =~= present_names(a) + present_names(b));
            },
            None => {},
        }
    }
}

/// Finds the first geometry of the forest `geometries`, in depth-first order, named `name`.
pub fn find_in_forest<'a>(geometries: &'a Vec<Geometry>, name: &str) -> (r: Option<&'a Geometry>)
    ensures
        match first_named(preorder(geometries@), name@) {
            Some(i) => r == Some(&preorder(geometries@)[i]),
            None => r is None,
        },
    decreases geometries@,
{
    let mut i: usize = 0;
    while i < geometries.len()
        invariant
            i <= geometries@.len(),
            first_named(preorder(geometries@.subrange(0, i as int)), name@) is None,
        decreases geometries@.len() - i,
    {
        let ghost pre = preorder(geometries@.subrange(0, i as int));
        let ghost g = geometries@[i as int];
        let ghost rest = preorder(geometries@.subrange(i + 1, geometries@.len() as int));
        proof {
            lemma_preorder_split(geometries@, i as int);
            lemma_first_named_append(pre + seq![g] + preorder(g.children@), rest, name@);
            lemma_first_named_append(pre + seq![g], preorder(g.children@), name@);
            lemma_first_named_append(pre, seq![g], name@);
        }
        let hit = match geometries[i].name_ref() {
            Some(n) => n.is(name),
            None => false,
        };
        if hit {
            assert(seq![g][0] == g);
            assert((pre + seq![g] + preorder(g.children@) + rest)[pre.len() as int] == g);
            return Some(&geometries[i]);
        }
        assert(first_named(seq![g], name@) is None) by {
            assert(seq![g][0] == g);
            assert(seq![g].drop_first() =~= Seq::<Geometry>::empty());
            assert(first_named(Seq::<Geometry>::empty(), name@) is None);
        }
        proof {
            assert(decreases_to!(geometries@ => geometries@[i as int]));
            assert(decreases_to!(geometries@[i as int] => geometries@[i as int].children));
            assert(decreases_to!(geometries@[i as int].children => geometries@[i as int].children@));
        }
        match find_in_forest(&geometries[i].children, name) {
            Some(found) => {
                proof {
                    crate::validation::lemma_first_named(preorder(g.children@), name@);
                    let k = first_named(preorder(g.children@), name@)->0;
                    let whole = pre + seq![g] + preorder(g.children@) + rest;
                    assert(whole[k + pre.len() + 1] == preorder(g.children@)[k]);
                }
                return Some(found);
            },
            None => {},
        }
        proof {
            let next = geometries@.subrange(0, i + 1);
            assert(next.drop_last() =~= geometries@.subrange(0, i as int));
            assert(next.last() == g);
        }
        i = i + 1;
    }
    assert(geometries@.subrange(0, i as int) =~= geometries@);
    None
}

/// Appends the names of the forest `geometries`, in depth-first order, to `out`, leaving out
/// the geometries without a name.
pub fn collect_names(geometries: &Vec<Geometry>, out: &mut Vec<Name>)
    ensures
        names_view(final(out)@) == names_view(old(out)@) + present_names(preorder(geometries@)),
    decreases geometries@,
{
    let ghost start = names_view(out@);
    let mut i: usize = 0;
    while i < geometries.len()
        invariant
            i <= geometries@.len(),
            names_view(out@) == start + present_names(preorder(geometries@.subrange(0, i as int))),
        decreases geometries@.len() - i,
    {
        let ghost pre = preorder(geometries@.subrange(0, i as int));
        let ghost g = geometries@[i as int];
        let ghost before = out@;
        match geometries[i].name_ref() {
            Some(n) => {
                out.push(n.clone());
                assert(names_view(out@) =~= names_view(before).push(n@));
            },
            None => {},
        }
        assert(present_names(seq![g]) == (match g.name_view() {
            Some(n) => seq![n],
            None => Seq::<Seq<char>>::empty(),
        })) by {
            assert(seq![g].drop_last() =~= Seq::<Geometry>::empty());
            assert(seq![g].last() == g);
            assert(present_names(Seq::<Geometry>::empty()) =~= Seq::<Seq<char>>::empty());
        }
        proof {
            assert(decreases_to!(geometries@ => geometries@[i as int]));
            assert(decreases_to!(geometries@[i as int] => geometries@[i as int].children));
            assert(decreases_to!(geometries@[i as int].children => geometries@[i as int].children@));
        }
        collect_names(&geometries[i].children, out);
        proof {
            let next = geometries@.subrange(0, i + 1);
            assert(next.drop_last() =~= geometries@.subrange(0, i as int));
            assert(next.last() == g);
            assert(preorder(next) == pre + seq![g] + preorder(g.children@));
            lemma_present_names_append(pre + seq![g], preorder(g.children@));
            lemma_present_names_append(pre, seq![g]);
        }
        i = i + 1;
    }
    assert(geometries@.subrange(0, i as int) =~= geometries@);
}

/// Where the path of names `path` leads from `g`: `g` itself for the empty path, or else the
/// first child of `g` named by the first name, followed by the rest of the path.
pub open spec fn child_at(g: Geometry, path: Seq<Seq<char>>) -> Option<Geometry>
    decreases path.len(),
{
    if path.len() == 0 {
        Some(g)
    } else {
        match first_named(g.children@, path[0]) {
            Some(i) => child_at(g.children@[i], path.drop_first()),
            None => None,
        }
    }
}

/// Follows the names of `path` from `start` on, child by child, from `g`.
pub(crate) fn descend<'a>(g: &'a Geometry, path: &[Name], start: usize) -> (r: Option<&'a Geometry>)
    requires
        start <= path@.len(),
    ensures
        match child_at(*g, names_view(path@).subrange(start as int, path@.len() as int)) {
            Some(c) => r == Some(&c),
            None => r is None,
        },
{
    let ghost p = names_view(path@);
    let mut cur = g;
    let mut i: usize = start;
    while i < path.len()
        invariant
            start <= i <= path@.len(),
            p == names_view(path@),
            child_at(*g, p.subrange(start as int, path@.len() as int)) == child_at(*cur, p.subrange(i as int, path@.len() as int)),
        decreases path@.len() - i,
    {
        let ghost rest = p.subrange(i as int, path@.len() as int);
        assert(rest[0] == path@[i as int]@);
        assert(rest.drop_first() =~= p.subrange(i + 1, path@.len() as int));
        match find_by_name(&cur.children, path[i].as_str()) {
            Some(c) => {
                cur = c;
            },
            None => {
                return None;
            },
        }
        i = i + 1;
    }
    assert(p.subrange(i as int, path@.len() as int).len() == 0);
    Some(cur)
}

impl Geometry {
    /// Looks up the geometry the path of names `path` leads to from this geometry: each name
    /// picks the first child with that name.
    pub fn child_node(&self, path: &[Name]) -> (r: Option<&Geometry>)
        ensures
            match child_at(*self, names_view(path@)) {
                Some(c) => r == Some(&c),
                None => r is None,
            },
    {
        assert(names_view(path@).subrange(0, path@.len() as int) =~= names_view(path@));
        descend(self, path, 0)
    }
}

} // verus!
