//! Deep merge of structured documents as trees: objects merge key by
//! key, recursively; anything else is replaced by the source.

use vstd::prelude::*;

verus! {

/// A document tree: a mapping from keys to subtrees, or a leaf value that
/// the merge does not look into.
pub enum Tree<L> {
    Object(Vec<(String, Tree<L>)>),
    Leaf(L),
}

/// The mathematical model of a tree.
pub enum TreeModel<L> {
    Object(Seq<(Seq<char>, TreeModel<L>)>),
    Leaf(L),
}

impl<L> Tree<L> {
    /// The model of this tree.
    pub open spec fn model(self) -> TreeModel<L>
        decreases self,
    {
        match self {
            Tree::Object(es) => TreeModel::Object(
                Seq::new(
                    es@.len(),
                    |i: int|
                        if 0 <= i < es@.len() {
                            proof {
                                assert(decreases_to!(es => es@));
                                assert(decreases_to!(es@ => es@[i]));
                            }
                            (es@[i].0@, es@[i].1.model())
                        } else {
                            (Seq::empty(), TreeModel::Object(Seq::empty()))
                        },
                ),
            ),
            Tree::Leaf(l) => TreeModel::Leaf(l),
        }
    }
}

/// The models of a list of entries.
pub open spec fn entries_model<L>(es: Seq<(String, Tree<L>)>) -> Seq<(Seq<char>, TreeModel<L>)> {
    Seq::new(es.len(), |i: int| (es[i].0@, es[i].1.model()))
}

/// The position of the first entry with key `k`, or `-1` when there is none.
pub open spec fn key_index<L>(es: Seq<(Seq<char>, TreeModel<L>)>, k: Seq<char>) -> int
    decreases es.len(),
{
    if es.len() == 0 {
        -1
    } else {
        let r = key_index(es.drop_last(), k);
        if r >= 0 {
            r
        } else if es.last().0 == k {
            es.len() - 1
        } else {
            -1
        }
    }
}

/// Merge the source tree `s` into the target tree `t`: when both are
/// objects their entries are merged; otherwise the source replaces the
/// target.
pub open spec fn merge_model<L>(t: TreeModel<L>, s: TreeModel<L>) -> TreeModel<L>
    decreases s,
{
    match s {
        TreeModel::Object(se) => match t {
            TreeModel::Object(te) => TreeModel::Object(merge_entries(te, se)),
            TreeModel::Leaf(_) => s,
        },
        TreeModel::Leaf(_) => s,
    }
}

/// Merge the source entries `se` into the target entries `te`, one source
/// entry after the other: an entry whose key the target holds takes that
/// target entry out (the last entry moves into its place) and is appended
/// with the two values merged; any other source entry is appended as it is.
pub open spec fn merge_entries<L>(
    te: Seq<(Seq<char>, TreeModel<L>)>,
    se: Seq<(Seq<char>, TreeModel<L>)>,
) -> Seq<(Seq<char>, TreeModel<L>)>
    decreases se,
{
    if se.len() == 0 {
        te
    } else {
        proof {
            assert(decreases_to!(se => se.drop_last())) by {
                assert(se.drop_last() =~= se.subrange(0, se.len() - 1));
            }
            assert(decreases_to!(se => se[se.len() - 1]));
        }
        let acc = merge_entries(te, se.drop_last());
        let k = se[se.len() - 1].0;
        let sv = se[se.len() - 1].1;
        let i = key_index(acc, k);
        if 0 <= i < acc.len() {
            acc.update(i, acc.last()).drop_last().push((k, merge_model(acc[i].1, sv)))
        } else {
            acc.push((k, sv))
        }
    }
}

/// The model of an object is the model of its entries.
pub proof fn lemma_object_model<L>(es: Vec<(String, Tree<L>)>)
    ensures
        Tree::Object(es).model() == TreeModel::Object(entries_model(es@)),
{
    let m = Tree::Object(es).model();
    assert(m->Object_0 =~= entries_model(es@));
}

/// A key found in a prefix is found at the same place in the whole list.
proof fn lemma_key_index_prefix<L>(es: Seq<(Seq<char>, TreeModel<L>)>, n: int, k: Seq<char>)
    requires
        0 <= n <= es.len(),
        key_index(es.subrange(0, n), k) >= 0,
    ensures
        key_index(es, k) == key_index(es.subrange(0, n), k),
    decreases es.len() - n,
{
    if n < es.len() {
        assert(es.subrange(0, n + 1).drop_last() =~= es.subrange(0, n));
        assert(key_index(es.subrange(0, n + 1), k) == key_index(es.subrange(0, n), k));
        lemma_key_index_prefix(es, n + 1, k);
    } else {
        assert(es.subrange(0, n) =~= es);
    }
}

/// The result of `key_index` lies within the list, names an entry with the
/// key, and no earlier entry has it; `-1` means no entry has it.
pub proof fn lemma_key_index<L>(es: Seq<(Seq<char>, TreeModel<L>)>, k: Seq<char>)
    ensures
        -1 <= key_index(es, k) < es.len(),
        key_index(es, k) >= 0 ==> es[key_index(es, k)].0 == k,
        forall|j: int| 0 <= j < key_index(es, k) ==> es[j].0 != k,
        key_index(es, k) < 0 ==> forall|j: int| 0 <= j < es.len() ==> es[j].0 != k,
    decreases es.len(),
{
    if es.len() > 0 {
        lemma_key_index(es.drop_last(), k);
        let r = key_index(es.drop_last(), k);
        if r >= 0 {
            assert(es[r] == es.drop_last()[r]);
            assert forall|j: int| 0 <= j < r implies es[j].0 != k by {
                assert(es[j] == es.drop_last()[j]);
            }
        } else {
            assert forall|j: int| 0 <= j < es.len() - 1 implies es[j].0 != k by {
                assert(es[j] == es.drop_last()[j]);
            }
        }
    }
}

/// The position of the first entry of `es` whose key is `k`.
fn find_key<L>(es: &Vec<(String, Tree<L>)>, k: &String) -> (r: Option<usize>)
    ensures
        match r {
            Some(i) => i as int == key_index(entries_model(es@), k@),
            None => key_index(entries_model(es@), k@) < 0,
        },
{
    let ghost m = entries_model(es@);
    let mut i: usize = 0;
    while i < es.len()
        invariant
            i <= es.len(),
            m == entries_model(es@),
            key_index(m.subrange(0, i as int), k@) < 0,
        decreases es.len() - i,
    {
        proof {
            assert(m.subrange(0, i + 1).drop_last() =~= m.subrange(0, i as int));
            assert(m[i as int].0 == es@[i as int].0@);
        }
        if es[i].0 == *k {
            proof {
                lemma_key_index_prefix(m, i + 1, k@);
            }
            return Some(i);
        }
        i = i + 1;
    }
    proof {
        assert(m.subrange(0, i as int) =~= m);
    }
    None
}

/// Deep-merge `source` into `target`: objects are merged key by key,
/// recursively; arrays and scalars in the source replace the target.
pub fn deep_merge<L>(target: Tree<L>, source: Tree<L>) -> (r: Tree<L>)
    ensures
        r.model() == merge_model(target.model(), source.model()),
    decreases source,
{
    let ghost src = source;
    match target {
        Tree::Object(target_entries) => match source {
            Tree::Object(source_entries) => {
                proof {
                    lemma_object_model(target_entries);
                    lemma_object_model(source_entries);
                }
                let ghost te0 = entries_model(target_entries@);
                let ghost se_vec = source_entries;
                let ghost se0 = source_entries@;
                let ghost sm = entries_model(se0);
                let n = source_entries.len();
                let mut acc = target_entries;
                let mut rest = source_entries;
                let mut j: usize = 0;
                proof {
                    assert(sm.subrange(0, 0) =~= Seq::<(Seq<char>, TreeModel<L>)>::empty());
                    assert(rest@.subrange(0, n as int) =~= rest@);
                    assert(decreases_to!(src => se_vec));
                }
                #[verifier::loop_isolation(false)]
                while j < n
                    invariant
                        j <= n == se0.len(),
                        decreases_to!(src => se_vec),
                        se0 == se_vec@,
                        src == Tree::Object(se_vec),
                        sm == entries_model(se0),
                        rest@ == se0.subrange(j as int, n as int),
                        entries_model(acc@) == merge_entries(te0, sm.subrange(0, j as int)),
                    decreases n - j,
                {
                    let ghost before = entries_model(acc@);
                    let (k, sv) = rest.remove(0);
                    proof {
                        assert(se0[j as int] == (k, sv));
                        assert(sm.subrange(0, j + 1).drop_last() =~= sm.subrange(0, j as int));
                        assert(sm.subrange(0, j + 1)[j as int] == (k@, sv.model()));
                        assert(rest@ =~= se0.subrange(j + 1, n as int));
                    }
                    let found = find_key(&acc, &k);
                    match found {
                        Some(i) => {
                            proof {
                                lemma_key_index(before, k@);
                            }
                            let (_, tv) = acc.swap_remove(i);
                            proof {
                                assert(decreases_to!(src => se_vec));
                                assert(decreases_to!(se_vec => se_vec@));
                                assert(decreases_to!(se_vec@ => se_vec@[j as int]));
                                assert(decreases_to!(se_vec@[j as int] => se_vec@[j as int].1));
                                assert(decreases_to!(src => sv));
                                assert(before[i as int].1 == tv.model());
                            }
                            let merged = deep_merge(tv, sv);
                            acc.push((k, merged));
                            proof {
                                assert(entries_model(acc@) =~= before.update(
                                    i as int,
                                    before.last(),
                                ).drop_last().push((k@, merge_model(before[i as int].1, sv.model()))));
                            }
                        },
                        None => {
                            acc.push((k, sv));
                            proof {
                                lemma_key_index(before, k@);
                                assert(entries_model(acc@) =~= before.push((k@, sv.model())));
                            }
                        },
                    }
                    j = j + 1;
                }
                proof {
                    assert(sm.subrange(0, n as int) =~= sm);
                    lemma_object_model(acc);
                }
                Tree::Object(acc)
            },
            Tree::Leaf(l) => Tree::Leaf(l),
        },
        Tree::Leaf(_) => source,
    }
}

/// No two entries share a key.
pub open spec fn keys_unique<L>(es: Seq<(Seq<char>, TreeModel<L>)>) -> bool {
    forall|i: int, j: int| 0 <= i < j < es.len() ==> es[i].0 != es[j].0
}

/// The value stored under key `k`, if any.
pub open spec fn lookup<L>(es: Seq<(Seq<char>, TreeModel<L>)>, k: Seq<char>) -> Option<TreeModel<L>> {
    let i = key_index(es, k);
    if 0 <= i < es.len() {
        Some(es[i].1)
    } else {
        None
    }
}

/// What a merged object holds under a key, given what the target and the
/// source hold under it: the source's value when only the source has the key,
/// the target's when only the target has it, and the two merged when both do.
pub open spec fn merged_value<L>(t: Option<TreeModel<L>>, s: Option<TreeModel<L>>) -> Option<
    TreeModel<L>,
> {
    match s {
        None => t,
        Some(sv) => match t {
            None => Some(sv),
            Some(tv) => Some(merge_model(tv, sv)),
        },
    }
}

/// With unique keys, the entry at position `i` is what `lookup` finds.
proof fn lemma_lookup_at<L>(es: Seq<(Seq<char>, TreeModel<L>)>, i: int)
    requires
        keys_unique(es),
        0 <= i < es.len(),
    ensures
        lookup(es, es[i].0) == Some(es[i].1),
{
    lemma_key_index(es, es[i].0);
    let ki = key_index(es, es[i].0);
    if ki != i {
        if ki < i {
            assert(es[ki].0 != es[i].0);
        } else {
            assert(es[i].0 != es[ki].0);
        }
    }
}

/// A key that no entry has is not found.
proof fn lemma_lookup_absent<L>(es: Seq<(Seq<char>, TreeModel<L>)>, k: Seq<char>)
    requires
        forall|j: int| 0 <= j < es.len() ==> es[j].0 != k,
    ensures
        lookup(es, k).is_none(),
{
    lemma_key_index(es, k);
}

/// `lookup` in terms of the positions: with unique keys, it finds the entry
/// with the key, or nothing when no entry has it.
proof fn lemma_lookup_cases<L>(es: Seq<(Seq<char>, TreeModel<L>)>, k: Seq<char>)
    requires
        keys_unique(es),
    ensures
        lookup(es, k).is_some() <==> exists|j: int| 0 <= j < es.len() && es[j].0 == k,
        forall|j: int| 0 <= j < es.len() && es[j].0 == k ==> lookup(es, k) == Some(es[j].1),
{
    lemma_key_index(es, k);
    assert forall|j: int| 0 <= j < es.len() && es[j].0 == k implies lookup(es, k) == Some(
        es[j].1,
    ) by {
        lemma_lookup_at(es, j);
    }
}

/// One step of `merge_entries` keeps keys unique and changes only what is
/// stored under the merged key.
proof fn lemma_merge_step<L>(
    acc: Seq<(Seq<char>, TreeModel<L>)>,
    k0: Seq<char>,
    v0: TreeModel<L>,
    r: Seq<(Seq<char>, TreeModel<L>)>,
)
    requires
        keys_unique(acc),
        r == ({
            let i = key_index(acc, k0);
            if 0 <= i < acc.len() {
                acc.update(i, acc.last()).drop_last().push((k0, merge_model(acc[i].1, v0)))
            } else {
                acc.push((k0, v0))
            }
        }),
    ensures
        keys_unique(r),
        lookup(r, k0) == merged_value(lookup(acc, k0), Some(v0)),
        forall|k: Seq<char>| k != k0 ==> lookup(r, k) == lookup(acc, k),
{
    lemma_key_index(acc, k0);
    lemma_lookup_cases(acc, k0);
    let i = key_index(acc, k0);
    let n = acc.len();
    if 0 <= i < n {
        let nv = merge_model(acc[i].1, v0);
        // the entries of r by position
        assert(r.len() == n);
        assert forall|p: int| 0 <= p < n - 1 implies #[trigger] r[p] == (if p == i {
            acc[n - 1]
        } else {
            acc[p]
        }) by {}
        assert(r[n - 1] == (k0, nv));
        assert forall|p: int, q: int| 0 <= p < q < r.len() implies r[p].0 != r[q].0 by {
            if q == n - 1 {
                if p == i {
                    assert(acc[n - 1].0 != acc[i].0);
                } else {
                    assert(acc[p].0 != acc[i].0);
                }
            } else if p == i {
                assert(acc[i].0 != acc[q].0);
                assert(acc[q].0 != acc[n - 1].0);
            } else if q == i {
                assert(acc[p].0 != acc[n - 1].0);
            } else {
                assert(acc[p].0 != acc[q].0);
            }
        }
        lemma_lookup_at(r, n - 1);
        assert forall|k: Seq<char>| k != k0 implies lookup(r, k) == lookup(acc, k) by {
            lemma_lookup_cases(acc, k);
            lemma_lookup_cases(r, k);
            if exists|j: int| 0 <= j < n && acc[j].0 == k {
                let j = choose|j: int| 0 <= j < n && acc[j].0 == k;
                if j == n - 1 {
                    assert(r[i].0 == k);
                } else {
                    assert(r[j].0 == k);
                }
            } else {
                assert forall|p: int| 0 <= p < r.len() implies r[p].0 != k by {
                    if p < n - 1 {
                        if p == i {
                            assert(acc[n - 1].0 != k);
                        } else {
                            assert(acc[p].0 != k);
                        }
                    }
                }
            }
        }
    } else {
        assert forall|p: int, q: int| 0 <= p < q < r.len() implies r[p].0 != r[q].0 by {
            if q == n {
                assert(acc[p].0 != k0);
            } else {
                assert(acc[p].0 != acc[q].0);
            }
        }
        lemma_lookup_at(r, n as int);
        assert forall|k: Seq<char>| k != k0 implies lookup(r, k) == lookup(acc, k) by {
            lemma_lookup_cases(acc, k);
            lemma_lookup_cases(r, k);
            if exists|j: int| 0 <= j < n && acc[j].0 == k {
                let j = choose|j: int| 0 <= j < n && acc[j].0 == k;
                assert(r[j].0 == k);
            }
            if exists|j: int| 0 <= j < r.len() && r[j].0 == k {
                let j = choose|j: int| 0 <= j < r.len() && r[j].0 == k;
                assert(j < n);
                assert(acc[j].0 == k);
            }
        }
    }
}

/// Deep merge of two objects, key by key: when target and source have
/// unique keys, so does the result, and under every key it holds the
/// source's value where only the source has the key, the target's where
/// only the target has it, and the two merged where both do.
pub proof fn merge_entries_lookup<L>(
    te: Seq<(Seq<char>, TreeModel<L>)>,
    se: Seq<(Seq<char>, TreeModel<L>)>,
)
    requires
        keys_unique(te),
        keys_unique(se),
    ensures
        keys_unique(merge_entries(te, se)),
        forall|k: Seq<char>|
            #[trigger] lookup(merge_entries(te, se), k) == merged_value(lookup(te, k), lookup(se, k)),
    decreases se.len(),
{
    if se.len() == 0 {
        assert forall|k: Seq<char>|
            #[trigger] lookup(merge_entries(te, se), k) == merged_value(
                lookup(te, k),
                lookup(se, k),
            ) by {
            lemma_lookup_absent(se, k);
        }
    } else {
        let p = se.drop_last();
        let last = se[se.len() - 1];
        assert(keys_unique(p));
        merge_entries_lookup(te, p);
        let acc = merge_entries(te, p);
        lemma_merge_step(acc, last.0, last.1, merge_entries(te, se));
        assert forall|j: int| 0 <= j < p.len() implies p[j].0 != last.0 by {
            assert(se[j].0 != se[se.len() - 1].0);
        }
        lemma_lookup_absent(p, last.0);
        lemma_lookup_at(se, se.len() - 1);
        assert forall|k: Seq<char>|
            #[trigger] lookup(merge_entries(te, se), k) == merged_value(
                lookup(te, k),
                lookup(se, k),
            ) by {
            if k != last.0 {
                lemma_lookup_cases(p, k);
                lemma_lookup_cases(se, k);
                if exists|j: int| 0 <= j < p.len() && p[j].0 == k {
                    let j = choose|j: int| 0 <= j < p.len() && p[j].0 == k;
                    assert(se[j].0 == k);
                    assert(se[j] == p[j]);
                }
                if exists|j: int| 0 <= j < se.len() && se[j].0 == k {
                    let j = choose|j: int| 0 <= j < se.len() && se[j].0 == k;
                    assert(j < p.len());
                    assert(p[j].0 == k);
                }
            }
        }
    }
}

/// A source that is not an object, or a target that is not, gives the
/// source back unchanged.
pub proof fn merge_non_object_takes_source<L>(t: TreeModel<L>, s: TreeModel<L>)
    requires
        !(t is Object && s is Object),
    ensures
        merge_model(t, s) == s,
{
}

/// Every object in the tree has unique keys.
pub open spec fn well_formed<L>(t: TreeModel<L>) -> bool
    decreases t,
{
    match t {
        TreeModel::Object(es) => keys_unique(es) && forall|i: int|
            0 <= i < es.len() ==> {
                proof {
                    assert(decreases_to!(es => es[i]));
                }
                well_formed(#[trigger] es[i].1)
            },
        TreeModel::Leaf(_) => true,
    }
}

/// Two trees hold the same document: equal leaves, or objects with the same
/// keys whose values hold the same documents, whatever the order of entries.
pub open spec fn same_doc<L>(a: TreeModel<L>, b: TreeModel<L>) -> bool
    decreases a,
{
    match a {
        TreeModel::Object(ae) => match b {
            TreeModel::Object(be) => {
                &&& forall|k: Seq<char>| #[trigger]
                    lookup(ae, k).is_some() == lookup(be, k).is_some()
                &&& forall|i: int|
                    0 <= i < ae.len() ==> {
                        proof {
                            assert(decreases_to!(ae => ae[i]));
                        }
                        same_doc(#[trigger] ae[i].1, lookup(be, ae[i].0).unwrap())
                    }
            },
            TreeModel::Leaf(_) => false,
        },
        TreeModel::Leaf(x) => b == TreeModel::<L>::Leaf(x),
    }
}

/// What `lookup` finds in a well-formed object is well-formed and smaller
/// than the object.
proof fn lemma_lookup_smaller<L>(es: Seq<(Seq<char>, TreeModel<L>)>, k: Seq<char>)
    requires
        well_formed(TreeModel::Object(es)),
        lookup(es, k).is_some(),
    ensures
        well_formed(lookup(es, k).unwrap()),
        decreases_to!(TreeModel::Object(es) => lookup(es, k).unwrap()),
        exists|i: int| 0 <= i < es.len() && es[i].0 == k && es[i].1 == lookup(es, k).unwrap(),
{
    lemma_key_index(es, k);
    let i = key_index(es, k);
    assert(well_formed(es[i].1));
    let t = TreeModel::Object(es);
    assert(decreases_to!(t => es));
    assert(decreases_to!(es => es[i]));
    assert(decreases_to!(es[i] => es[i].1));
}

/// Merging well-formed trees gives a well-formed tree.
pub proof fn merge_well_formed<L>(t: TreeModel<L>, s: TreeModel<L>)
    requires
        well_formed(t),
        well_formed(s),
    ensures
        well_formed(merge_model(t, s)),
    decreases s,
{
    match s {
        TreeModel::Object(se) => match t {
            TreeModel::Object(te) => {
                merge_entries_lookup(te, se);
                let me = merge_entries(te, se);
                assert forall|i: int| 0 <= i < me.len() implies well_formed(#[trigger] me[i].1) by {
                    let k = me[i].0;
                    lemma_lookup_at(me, i);
                    if lookup(se, k).is_some() {
                        lemma_lookup_smaller(se, k);
                        if lookup(te, k).is_some() {
                            lemma_lookup_smaller(te, k);
                            merge_well_formed(lookup(te, k).unwrap(), lookup(se, k).unwrap());
                        }
                    } else {
                        lemma_lookup_smaller(te, k);
                    }
                }
            },
            TreeModel::Leaf(_) => {},
        },
        TreeModel::Leaf(_) => {},
    }
}

/// A well-formed tree holds the same document as itself.
pub proof fn same_doc_reflexive<L>(x: TreeModel<L>)
    requires
        well_formed(x),
    ensures
        same_doc(x, x),
    decreases x,
{
    match x {
        TreeModel::Object(xe) => {
            assert forall|i: int| 0 <= i < xe.len() implies same_doc(
                #[trigger] xe[i].1,
                lookup(xe, xe[i].0).unwrap(),
            ) by {
                lemma_lookup_at(xe, i);
                assert(decreases_to!(x => xe));
                assert(decreases_to!(xe => xe[i]));
                assert(decreases_to!(xe[i] => xe[i].1));
                same_doc_reflexive(xe[i].1);
            }
        },
        TreeModel::Leaf(_) => {},
    }
}

/// Merging a well-formed tree into itself gives the same document back.
pub proof fn merge_with_itself<L>(x: TreeModel<L>)
    requires
        well_formed(x),
    ensures
        same_doc(merge_model(x, x), x),
    decreases x,
{
    match x {
        TreeModel::Object(xe) => {
            merge_entries_lookup(xe, xe);
            let me = merge_entries(xe, xe);
            assert forall|k: Seq<char>| #[trigger]
                lookup(me, k).is_some() == lookup(xe, k).is_some() by {}
            assert forall|i: int| 0 <= i < me.len() implies same_doc(
                #[trigger] me[i].1,
                lookup(xe, me[i].0).unwrap(),
            ) by {
                let k = me[i].0;
                lemma_lookup_at(me, i);
                lemma_lookup_smaller(xe, k);
                merge_with_itself(lookup(xe, k).unwrap());
            }
        },
        TreeModel::Leaf(_) => {},
    }
}

/// Merging the same source a second time changes no document: the result
/// holds the same document as the first merge.
pub proof fn merge_idempotent<L>(t: TreeModel<L>, s: TreeModel<L>)
    requires
        well_formed(t),
        well_formed(s),
    ensures
        same_doc(merge_model(merge_model(t, s), s), merge_model(t, s)),
    decreases s,
{
    merge_well_formed(t, s);
    match s {
        TreeModel::Object(se) => match t {
            TreeModel::Object(te) => {
                merge_entries_lookup(te, se);
                let me1 = merge_entries(te, se);
                merge_entries_lookup(me1, se);
                let me2 = merge_entries(me1, se);
                assert forall|k: Seq<char>| #[trigger]
                    lookup(me2, k).is_some() == lookup(me1, k).is_some() by {}
                assert forall|i: int| 0 <= i < me2.len() implies same_doc(
                    #[trigger] me2[i].1,
                    lookup(me1, me2[i].0).unwrap(),
                ) by {
                    let k = me2[i].0;
                    lemma_lookup_at(me2, i);
                    if lookup(se, k).is_some() {
                        lemma_lookup_smaller(se, k);
                        let sv = lookup(se, k).unwrap();
                        if lookup(te, k).is_some() {
                            lemma_lookup_smaller(te, k);
                            merge_idempotent(lookup(te, k).unwrap(), sv);
                        } else {
                            merge_with_itself(sv);
                        }
                    } else {
                        lemma_lookup_smaller(me1, k);
                        same_doc_reflexive(lookup(me1, k).unwrap());
                    }
                }
            },
            TreeModel::Leaf(_) => {
                merge_with_itself(s);
            },
        },
        TreeModel::Leaf(_) => {},
    }
}

} // verus!
