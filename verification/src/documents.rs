//! Deep merge of JSON and YAML document texts. A JSON text is parsed,
//! taken apart into a tree of objects and leaf values, merged as a tree,
//! put back together and written out. A YAML text is parsed and merged on
//! its own mappings, whose keys are YAML values, and written out.

use vstd::prelude::*;
use crate::merge::{deep_merge, merge_model, well_formed, Tree, TreeModel};

verus! {

/// A JSON value.
#[verifier::external_type_specification]
#[verifier::external_body]
pub struct ExJsonValue(serde_json::Value);

/// A YAML value.
#[verifier::external_type_specification]
#[verifier::external_body]
pub struct ExYamlValue(serde_yaml::Value);

/// Why merging two documents failed.
#[derive(Debug, Clone, Copy, PartialEq, Eq, Structural)]
pub enum DocMergeError {
    /// The source is not a valid document.
    SourceParse,
    /// The target is not a valid document.
    TargetParse,
    /// A document could not be taken apart into a tree or put back together.
    Convert,
    /// The merged document could not be written out.
    Render,
}

/// How deep a document may nest when it is taken apart.
pub open spec fn nesting_limit() -> nat {
    usize::MAX as nat
}

/// Entries with their keys taken by their views.
pub open spec fn pairs_view<V>(es: Seq<(String, V)>) -> Seq<(Seq<char>, V)> {
    es.map_values(|e: (String, V)| (e.0@, e.1))
}

/// The models of a list of tree entries.
pub open spec fn tree_entries_view<L>(es: Seq<(String, Tree<L>)>) -> Seq<(Seq<char>, TreeModel<L>)> {
    es.map_values(|e: (String, Tree<L>)| (e.0@, e.1.model()))
}

// ---------------------------------------------------------------- JSON

/// The value `serde_json::from_str` reads from `text`, or `None` when
/// `text` is not valid JSON.
pub uninterp spec fn json_parse(text: Seq<char>) -> Option<serde_json::Value>;

/// The entries of a JSON object in the order its map yields them, or
/// `None` when the value is not an object.
pub uninterp spec fn json_object_entries(v: serde_json::Value) -> Option<
    Seq<(Seq<char>, serde_json::Value)>,
>;

/// The JSON object whose map is collected from `es`.
pub uninterp spec fn json_object_of(es: Seq<(Seq<char>, serde_json::Value)>) -> serde_json::Value;

/// The text `serde_json::to_string_pretty` writes for `v`, or `None` when
/// it fails.
pub uninterp spec fn json_pretty_text(v: serde_json::Value) -> Option<Seq<char>>;

/// `serde_json::from_str` into a JSON value.
#[verifier::external_body]
fn parse_json_value(text: &str) -> (r: Option<serde_json::Value>)
    ensures
        r == json_parse(text@),
{
    serde_json::from_str(text).ok()
}

/// Take a JSON object apart into its entries (`Value::Object`, then the
/// map's `into_iter`), or hand back a value that is not an object. The
/// entries of a map have distinct keys.
#[verifier::external_body]
fn split_json(v: serde_json::Value) -> (r: Result<Vec<(String, serde_json::Value)>, serde_json::Value>)
    ensures
        match r {
            Ok(es) => json_object_entries(v) == Some(pairs_view(es@)) && forall|i: int, j: int|
                0 <= i < j < es@.len() ==> es@[i].0@ != es@[j].0@,
            Err(x) => json_object_entries(v).is_none() && x == v,
        },
{
    match v {
        serde_json::Value::Object(map) => Ok(map.into_iter().collect()),
        other => Err(other),
    }
}

/// Put entries together into a JSON object (`collect` into a map, then
/// `Value::Object`).
#[verifier::external_body]
fn join_json(es: Vec<(String, serde_json::Value)>) -> (r: serde_json::Value)
    ensures
        r == json_object_of(pairs_view(es@)),
{
    serde_json::Value::Object(es.into_iter().collect())
}

/// `serde_json::to_string_pretty` on a JSON value.
#[verifier::external_body]
fn render_json_pretty(v: &serde_json::Value) -> (r: Option<String>)
    ensures
        match r {
            Some(s) => json_pretty_text(*v) == Some(s@),
            None => json_pretty_text(*v).is_none(),
        },
{
    serde_json::to_string_pretty(v).ok()
}

/// The tree of a JSON value, objects taken apart down to `fuel` levels;
/// `None` when the value nests deeper.
pub open spec fn json_tree(v: serde_json::Value, fuel: nat) -> Option<TreeModel<serde_json::Value>>
    decreases fuel, 0nat,
{
    if fuel == 0 {
        None
    } else {
        match json_object_entries(v) {
            None => Some(TreeModel::Leaf(v)),
            Some(es) => match json_entries_tree(es, (fuel - 1) as nat) {
                Some(ts) => Some(TreeModel::Object(ts)),
                None => None,
            },
        }
    }
}

/// The trees of the values of JSON object entries, each taken apart down
/// to `fuel` levels.
pub open spec fn json_entries_tree(es: Seq<(Seq<char>, serde_json::Value)>, fuel: nat) -> Option<
    Seq<(Seq<char>, TreeModel<serde_json::Value>)>,
>
    decreases fuel, es.len(),
{
    if es.len() == 0 {
        Some(seq![])
    } else {
        match json_entries_tree(es.drop_last(), fuel) {
            Some(ts) => match json_tree(es.last().1, fuel) {
                Some(t) => Some(ts.push((es.last().0, t))),
                None => None,
            },
            None => None,
        }
    }
}

/// The JSON value a tree stands for.
pub open spec fn json_of_tree(t: TreeModel<serde_json::Value>) -> serde_json::Value
    decreases t,
{
    match t {
        TreeModel::Leaf(v) => v,
        TreeModel::Object(es) => json_object_of(json_entries_of(es)),
    }
}

/// The JSON entries that tree entries stand for.
pub open spec fn json_entries_of(es: Seq<(Seq<char>, TreeModel<serde_json::Value>)>) -> Seq<
    (Seq<char>, serde_json::Value),
>
    decreases es,
{
    Seq::new(
        es.len(),
        |i: int|
            if 0 <= i < es.len() {
                proof {
                    assert(decreases_to!(es => es[i]));
                }
                (es[i].0, json_of_tree(es[i].1))
            } else {
                (Seq::empty(), json_object_of(Seq::empty()))
            },
    )
}

/// The merge of the JSON source text `source` into the JSON target text
/// `target`, as a JSON value.
pub open spec fn merged_json(target: Seq<char>, source: Seq<char>) -> serde_json::Value {
    json_of_tree(
        merge_model(
            json_tree(json_parse(target).unwrap(), nesting_limit()).unwrap(),
            json_tree(json_parse(source).unwrap(), nesting_limit()).unwrap(),
        ),
    )
}

/// Once a prefix of the entries fails to convert, so do all of them.
proof fn lemma_json_entries_prefix(es: Seq<(Seq<char>, serde_json::Value)>, fuel: nat, j: int)
    requires
        0 <= j <= es.len(),
        json_entries_tree(es.subrange(0, j), fuel).is_none(),
    ensures
        json_entries_tree(es, fuel).is_none(),
    decreases es.len() - j,
{
    if j < es.len() {
        assert(es.subrange(0, j + 1).drop_last() =~= es.subrange(0, j));
        lemma_json_entries_prefix(es, fuel, j + 1);
    } else {
        assert(es.subrange(0, j) =~= es);
    }
}

/// Whether a JSON value nests at most `d` levels deep: a value that is not
/// an object takes one level, an object one more than its deepest value.
pub open spec fn json_nests_within(v: serde_json::Value, d: nat) -> bool
    decreases d,
{
    d > 0 && match json_object_entries(v) {
        None => true,
        Some(es) => forall|i: int|
            0 <= i < es.len() ==> json_nests_within(#[trigger] es[i].1, (d - 1) as nat),
    }
}

/// Entries converted to trees keep their keys, in order.
proof fn lemma_json_entries_tree_keys(es: Seq<(Seq<char>, serde_json::Value)>, fuel: nat)
    ensures
        json_entries_tree(es, fuel) matches Some(ts) ==> ts.len() == es.len() && forall|i: int|
            0 <= i < es.len() ==> #[trigger] ts[i].0 == es[i].0,
    decreases es.len(),
{
    if es.len() > 0 {
        lemma_json_entries_tree_keys(es.drop_last(), fuel);
        if let Some(ts) = json_entries_tree(es, fuel) {
            let prev = json_entries_tree(es.drop_last(), fuel).unwrap();
            assert forall|i: int| 0 <= i < es.len() implies #[trigger] ts[i].0 == es[i].0 by {
                if i < es.len() - 1 {
                    assert(ts[i] == prev[i]);
                    assert(es.drop_last()[i] == es[i]);
                }
            }
        }
    }
}

/// A value nesting within `fuel` levels is taken apart, and so are the
/// values of entries nesting within `fuel` levels.
proof fn lemma_json_tree_some(v: serde_json::Value, fuel: nat, d: nat)
    requires
        json_nests_within(v, d),
        d <= fuel,
    ensures
        json_tree(v, fuel).is_some(),
    decreases fuel, 0nat,
{
    if let Some(es) = json_object_entries(v) {
        lemma_json_entries_tree_some(es, (fuel - 1) as nat, (d - 1) as nat);
    }
}

/// Entries whose values nest within `d <= fuel` levels are all taken
/// apart.
proof fn lemma_json_entries_tree_some(es: Seq<(Seq<char>, serde_json::Value)>, fuel: nat, d: nat)
    requires
        forall|i: int| 0 <= i < es.len() ==> json_nests_within(#[trigger] es[i].1, d),
        d <= fuel,
    ensures
        json_entries_tree(es, fuel).is_some(),
    decreases fuel, es.len(),
{
    if es.len() > 0 {
        assert forall|i: int| 0 <= i < es.drop_last().len() implies json_nests_within(
            #[trigger] es.drop_last()[i].1,
            d,
        ) by {
            assert(es.drop_last()[i] == es[i]);
        }
        lemma_json_entries_tree_some(es.drop_last(), fuel, d);
        assert(json_nests_within(es[es.len() - 1].1, d));
        lemma_json_tree_some(es.last().1, fuel, d);
    }
}

/// Taking a JSON value apart keeps its shape: a value that is not an object
/// is a leaf holding it; an object is an object node with the same keys in
/// the same order, an empty object included; and a value nesting within
/// `fuel` levels is always taken apart.
pub proof fn json_tree_keeps_shape(v: serde_json::Value, fuel: nat)
    requires
        fuel > 0,
    ensures
        json_object_entries(v).is_none() ==> json_tree(v, fuel) == Some(
            TreeModel::<serde_json::Value>::Leaf(v),
        ),
        json_object_entries(v) matches Some(es) ==> (json_tree(v, fuel) matches Some(t) ==> (
        t matches TreeModel::Object(ts) && ts.len() == es.len() && forall|i: int|
            0 <= i < es.len() ==> #[trigger] ts[i].0 == es[i].0)),
        forall|d: nat| d <= fuel && #[trigger] json_nests_within(v, d) ==> json_tree(v, fuel).is_some(),
{
    if let Some(es) = json_object_entries(v) {
        lemma_json_entries_tree_keys(es, (fuel - 1) as nat);
    }
    assert forall|d: nat| d <= fuel && #[trigger] json_nests_within(v, d) implies json_tree(
        v,
        fuel,
    ).is_some() by {
        lemma_json_tree_some(v, fuel, d);
    }
}

/// Take a JSON value apart into a tree, down to `fuel` levels. Its
/// objects have distinct keys, as JSON maps do.
pub fn json_to_tree(v: serde_json::Value, fuel: usize) -> (r: Option<Tree<serde_json::Value>>)
    ensures
        match r {
            Some(t) => json_tree(v, fuel as nat) == Some(t.model()) && well_formed(t.model()),
            None => json_tree(v, fuel as nat).is_none(),
        },
    decreases fuel,
{
    if fuel == 0 {
        return None;
    }
    let ghost v0 = v;
    match split_json(v) {
        Err(x) => Some(Tree::Leaf(x)),
        Ok(es) => {
            let ghost esv = pairs_view(es@);
            let ghost f1 = (fuel - 1) as nat;
            let n = es.len();
            let mut rest = es;
            let mut out: Vec<(String, Tree<serde_json::Value>)> = Vec::new();
            let mut j: usize = 0;
            proof {
                assert(esv.subrange(0, 0) =~= Seq::<(Seq<char>, serde_json::Value)>::empty());
                assert(tree_entries_view(out@) =~= Seq::<(Seq<char>, TreeModel<serde_json::Value>)>::empty());
                assert(rest@.subrange(0, n as int) =~= rest@);
            }
            #[verifier::loop_isolation(false)]
            while j < n
                invariant
                    fuel > 0,
                    rest@.len() == n - j,
                    f1 == fuel - 1,
                    j <= n == esv.len(),
                    json_object_entries(v0) == Some(esv),
                    pairs_view(rest@) == esv.subrange(j as int, n as int),
                    json_entries_tree(esv.subrange(0, j as int), f1) == Some(tree_entries_view(out@)),
                    out@.len() == j,
                    forall|i: int| 0 <= i < j ==> #[trigger] out@[i].0@ == esv[i].0,
                    forall|i: int| 0 <= i < j ==> well_formed(#[trigger] out@[i].1.model()),
                    forall|a: int, b: int| 0 <= a < b < n ==> esv[a].0 != esv[b].0,
                decreases n - j,
            {
                let ghost before = rest@;
                let (k, x) = rest.remove(0);
                proof {
                    assert(pairs_view(before)[0] == (k@, x));
                    assert(pairs_view(rest@) =~= pairs_view(before).drop_first());
                    assert(esv.subrange(0, j + 1).drop_last() =~= esv.subrange(0, j as int));
                    assert(esv[j as int] == (k@, x));
                }
                match json_to_tree(x, fuel - 1) {
                    Some(t) => {
                        let ghost prev = out@;
                        out.push((k, t));
                        proof {
                            assert(tree_entries_view(out@) =~= tree_entries_view(prev).push((k@, t.model())));
                            assert(out@[j as int].0@ == esv[j as int].0);
                            assert forall|i: int| 0 <= i < j + 1 implies #[trigger] out@[i].0@ == esv[i].0 by {
                                if i < j {
                                    assert(out@[i] == prev[i]);
                                }
                            }
                        }
                    },
                    None => {
                        proof {
                            lemma_json_entries_prefix(esv, f1, j + 1);
                        }
                        return None;
                    },
                }
                j = j + 1;
            }
            proof {
                assert(esv.subrange(0, n as int) =~= esv);
                crate::merge::lemma_object_model(out);
                assert(tree_entries_view(out@) =~= crate::merge::entries_model(out@));
                let em = crate::merge::entries_model(out@);
                assert forall|a: int, b: int| 0 <= a < b < em.len() implies em[a].0 != em[b].0 by {
                    assert(em[a].0 == out@[a].0@);
                    assert(em[b].0 == out@[b].0@);
                }
                assert forall|a: int| 0 <= a < em.len() implies well_formed(#[trigger] em[a].1) by {
                    assert(em[a].1 == out@[a].1.model());
                }
            }
            Some(Tree::Object(out))
        },
    }
}

/// Put a tree back together into the JSON value it stands for.
pub fn tree_to_json(t: Tree<serde_json::Value>) -> (r: serde_json::Value)
    ensures
        r == json_of_tree(t.model()),
    decreases t,
{
    let ghost t0 = t;
    match t {
        Tree::Leaf(v) => v,
        Tree::Object(es) => {
            proof {
                crate::merge::lemma_object_model(es);
            }
            let ghost em = crate::merge::entries_model(es@);
            let ghost es_vec = es;
            let n = es.len();
            let mut rest = es;
            let mut out: Vec<(String, serde_json::Value)> = Vec::new();
            let mut j: usize = 0;
            proof {
                assert(rest@.subrange(0, n as int) =~= rest@);
                assert(decreases_to!(t0 => es_vec));
            }
            #[verifier::loop_isolation(false)]
            while j < n
                invariant
                    decreases_to!(t0 => es_vec),
                    j <= n == es_vec@.len(),
                    t0 == Tree::Object(es_vec),
                    em == crate::merge::entries_model(es_vec@),
                    rest@ == es_vec@.subrange(j as int, n as int),
                    pairs_view(out@) =~= json_entries_of(em).subrange(0, j as int),
                decreases n - j,
            {
                let (k, c) = rest.remove(0);
                proof {
                    assert(es_vec@[j as int] == (k, c));
                    assert(rest@ =~= es_vec@.subrange(j + 1, n as int));
                    assert(decreases_to!(es_vec => es_vec@));
                    assert(decreases_to!(es_vec@ => es_vec@[j as int]));
                    assert(decreases_to!(es_vec@[j as int] => es_vec@[j as int].1));
                }
                let v = tree_to_json(c);
                let ghost prev = out@;
                out.push((k, v));
                proof {
                    assert(em[j as int] == (k@, c.model()));
                    assert(json_entries_of(em)[j as int] == (k@, v));
                    assert(pairs_view(out@) =~= pairs_view(prev).push((k@, v)));
                    assert(json_entries_of(em).subrange(0, j + 1) =~= json_entries_of(em).subrange(
                        0,
                        j as int,
                    ).push((k@, v)));
                }
                j = j + 1;
            }
            let r = join_json(out);
            proof {
                assert(t0.model() == TreeModel::Object(em));
                assert(json_entries_of(em).subrange(0, n as int) =~= json_entries_of(em));
            }
            r
        },
    }
}

/// Deep-merge two JSON texts and write the result out pretty-printed:
/// source values overwrite target values for conflicting keys, nested
/// objects are merged recursively, and arrays and scalars are replaced by
/// the source. The source is read first, so when both texts are invalid
/// the source is the one reported.
pub fn merge_json_texts(target: &str, source: &str) -> (r: Result<String, DocMergeError>)
    ensures
        (r == Err::<String, DocMergeError>(DocMergeError::SourceParse)) == json_parse(
            source@,
        ).is_none(),
        (r == Err::<String, DocMergeError>(DocMergeError::TargetParse)) == (json_parse(
            source@,
        ).is_some() && json_parse(target@).is_none()),
        (r == Err::<String, DocMergeError>(DocMergeError::Convert)) == (json_parse(source@).is_some()
            && json_parse(target@).is_some() && (json_tree(
            json_parse(target@).unwrap(),
            nesting_limit(),
        ).is_none() || json_tree(json_parse(source@).unwrap(), nesting_limit()).is_none())),
        r matches Ok(s) ==> json_pretty_text(merged_json(target@, source@)) == Some(s@),
        r == Err::<String, DocMergeError>(DocMergeError::Render) ==> json_pretty_text(
            merged_json(target@, source@),
        ).is_none(),
        r is Ok || r == Err::<String, DocMergeError>(DocMergeError::Render) ==> well_formed(
            json_tree(json_parse(target@).unwrap(), nesting_limit()).unwrap(),
        ) && well_formed(json_tree(json_parse(source@).unwrap(), nesting_limit()).unwrap()),
        json_parse(source@).is_some() && json_parse(target@).is_some() && json_tree(
            json_parse(target@).unwrap(),
            nesting_limit(),
        ).is_some() && json_tree(json_parse(source@).unwrap(), nesting_limit()).is_some()
            && json_pretty_text(merged_json(target@, source@)).is_some() ==> r is Ok,
{
    let src = match parse_json_value(source) {
        Some(v) => v,
        None => return Err(DocMergeError::SourceParse),
    };
    let tgt = match parse_json_value(target) {
        Some(v) => v,
        None => return Err(DocMergeError::TargetParse),
    };
    let tt = match json_to_tree(tgt, usize::MAX) {
        Some(t) => t,
        None => return Err(DocMergeError::Convert),
    };
    let st = match json_to_tree(src, usize::MAX) {
        Some(t) => t,
        None => return Err(DocMergeError::Convert),
    };
    let merged = deep_merge(tt, st);
    let v = tree_to_json(merged);
    match render_json_pretty(&v) {
        Some(s) => Ok(s),
        None => Err(DocMergeError::Render),
    }
}

// ---------------------------------------------------------------- YAML

/// A YAML mapping.
#[verifier::external_type_specification]
#[verifier::external_body]
pub struct ExYamlMapping(serde_yaml::Mapping);

/// The value `serde_yaml::from_str` reads from `text`, or `None` when
/// `text` is not valid YAML.
pub uninterp spec fn yaml_parse(text: Seq<char>) -> Option<serde_yaml::Value>;

/// The text `serde_yaml::to_string` writes for `v`, or `None` when it
/// fails.
pub uninterp spec fn yaml_text(v: serde_yaml::Value) -> Option<Seq<char>>;

/// The entries of a YAML mapping value in order, or `None` when the value
/// is not a mapping.
pub uninterp spec fn yaml_mapping_entries(v: serde_yaml::Value) -> Option<
    Seq<(serde_yaml::Value, serde_yaml::Value)>,
>;

/// The YAML mapping value collected from `es`.
pub uninterp spec fn yaml_mapping_of(es: Seq<(serde_yaml::Value, serde_yaml::Value)>) -> serde_yaml::Value;

/// The entries a YAML mapping holds, in order.
pub uninterp spec fn yaml_mapping_contents(m: serde_yaml::Mapping) -> Seq<
    (serde_yaml::Value, serde_yaml::Value),
>;

/// Whether two YAML values are equal as `serde_yaml::Value`'s `==` says,
/// which is how a mapping finds a key.
pub uninterp spec fn yaml_values_equal(a: serde_yaml::Value, b: serde_yaml::Value) -> bool;

/// The position of the entry of `es` whose key equals `k`: the first such
/// entry, and in a mapping the only one.
pub open spec fn yaml_key_position(es: Seq<(serde_yaml::Value, serde_yaml::Value)>, k: serde_yaml::Value) -> Option<
    nat,
>
    decreases es.len(),
{
    if es.len() == 0 {
        None
    } else {
        match yaml_key_position(es.drop_last(), k) {
            Some(i) => Some(i),
            None => if yaml_values_equal(es.last().0, k) {
                Some((es.len() - 1) as nat)
            } else {
                None
            },
        }
    }
}

/// `serde_yaml::from_str` into a YAML value.
#[verifier::external_body]
fn parse_yaml_value(text: &str) -> (r: Option<serde_yaml::Value>)
    ensures
        r == yaml_parse(text@),
{
    serde_yaml::from_str(text).ok()
}

/// `serde_yaml::to_string` on a YAML value.
#[verifier::external_body]
fn yaml_to_text(v: &serde_yaml::Value) -> (r: Option<String>)
    ensures
        match r {
            Some(s) => yaml_text(*v) == Some(s@),
            None => yaml_text(*v).is_none(),
        },
{
    serde_yaml::to_string(v).ok()
}

/// Take a YAML mapping value apart into its entries (`Value::Mapping`,
/// then the mapping's `into_iter`), or hand back a value that is not a
/// mapping. No two keys of a mapping are equal under `==`.
#[verifier::external_body]
fn split_yaml(v: serde_yaml::Value) -> (r: Result<
    Vec<(serde_yaml::Value, serde_yaml::Value)>,
    serde_yaml::Value,
>)
    ensures
        match r {
            Ok(es) => yaml_mapping_entries(v) == Some(es@) && yaml_keys_distinct(es@),
            Err(x) => yaml_mapping_entries(v).is_none() && x == v,
        },
{
    match v {
        serde_yaml::Value::Mapping(map) => Ok(map.into_iter().collect()),
        other => Err(other),
    }
}

/// The mapping inside a YAML mapping value (`Value::Mapping`), or the value
/// handed back when it is not a mapping. No two keys of a mapping are equal
/// under `==`.
#[verifier::external_body]
fn as_yaml_mapping(v: serde_yaml::Value) -> (r: Result<serde_yaml::Mapping, serde_yaml::Value>)
    ensures
        match r {
            Ok(m) => yaml_mapping_entries(v) == Some(yaml_mapping_contents(m)) && yaml_keys_distinct(
                yaml_mapping_contents(m),
            ),
            Err(x) => yaml_mapping_entries(v).is_none() && x == v,
        },
{
    match v {
        serde_yaml::Value::Mapping(map) => Ok(map),
        other => Err(other),
    }
}

/// `Mapping::into_iter`, collected: the entries of a mapping, in order.
#[verifier::external_body]
fn yaml_mapping_into_entries(m: serde_yaml::Mapping) -> (r: Vec<(serde_yaml::Value, serde_yaml::Value)>)
    ensures
        r@ == yaml_mapping_contents(m),
{
    m.into_iter().collect()
}

/// `Mapping::remove`: take out the entry whose key equals `k`, moving the
/// last entry into its place, and return its value. The keys of a mapping
/// are distinct under `==`, so no entry with that key is left.
#[verifier::external_body]
fn yaml_mapping_remove(m: &mut serde_yaml::Mapping, k: &serde_yaml::Value) -> (r: Option<
    serde_yaml::Value,
>)
    ensures
        match yaml_key_position(yaml_mapping_contents(*old(m)), *k) {
            Some(i) => i < yaml_mapping_contents(*old(m)).len() && r == Some(
                yaml_mapping_contents(*old(m))[i as int].1,
            ) && yaml_mapping_contents(*final(m)) == yaml_mapping_contents(*old(m)).update(
                i as int,
                yaml_mapping_contents(*old(m)).last(),
            ).drop_last(),
            None => r.is_none() && yaml_mapping_contents(*final(m)) == yaml_mapping_contents(
                *old(m),
            ),
        },
        yaml_key_position(yaml_mapping_contents(*final(m)), *k).is_none(),
        r.is_some() == exists|i: int|
            0 <= i < yaml_mapping_contents(*old(m)).len() && #[trigger] yaml_values_equal(
                yaml_mapping_contents(*old(m))[i].0,
                *k,
            ),
{
    m.remove(k)
}

/// `Mapping::insert`: give the entry whose key equals `k` the value `v`,
/// keeping its key and place, or append `(k, v)` when there is none.
#[verifier::external_body]
fn yaml_mapping_insert(m: &mut serde_yaml::Mapping, k: serde_yaml::Value, v: serde_yaml::Value)
    ensures
        match yaml_key_position(yaml_mapping_contents(*old(m)), k) {
            Some(i) => i < yaml_mapping_contents(*old(m)).len() && yaml_mapping_contents(*final(m))
                == yaml_mapping_contents(*old(m)).update(
                i as int,
                (yaml_mapping_contents(*old(m))[i as int].0, v),
            ),
            None => yaml_mapping_contents(*final(m)) == yaml_mapping_contents(*old(m)).push((k, v)),
        },
{
    m.insert(k, v);
}

/// Put entries together into a YAML mapping value (`collect` into a
/// `Mapping`, then `Value::Mapping`).
#[verifier::external_body]
fn join_yaml(es: Vec<(serde_yaml::Value, serde_yaml::Value)>) -> (r: serde_yaml::Value)
    ensures
        r == yaml_mapping_of(es@),
{
    serde_yaml::Value::Mapping(es.into_iter().collect())
}

/// Deep-merge the YAML value `s` into `t`, recursing at most `fuel` levels
/// (`None` beyond): when both are mappings, each entry of `s` in order
/// takes the entry with an equal key out of `t` (the last entry moving
/// into its place) and is appended with the two values merged, or is
/// appended as it is; otherwise `s` replaces `t`.
pub open spec fn yaml_merge(t: serde_yaml::Value, s: serde_yaml::Value, fuel: nat) -> Option<
    serde_yaml::Value,
>
    decreases fuel, 0nat,
{
    if fuel == 0 {
        None
    } else {
        match yaml_mapping_entries(t) {
            Some(te) => match yaml_mapping_entries(s) {
                Some(se) => match yaml_merge_entries(te, se, (fuel - 1) as nat) {
                    Some(es) => Some(yaml_mapping_of(es)),
                    None => None,
                },
                None => Some(s),
            },
            None => Some(s),
        }
    }
}

/// The entries of the target mapping `te` after the entries `se` of the
/// source mapping are merged into it in order.
pub open spec fn yaml_merge_entries(
    te: Seq<(serde_yaml::Value, serde_yaml::Value)>,
    se: Seq<(serde_yaml::Value, serde_yaml::Value)>,
    fuel: nat,
) -> Option<Seq<(serde_yaml::Value, serde_yaml::Value)>>
    decreases fuel, se.len(),
{
    if se.len() == 0 {
        Some(te)
    } else {
        match yaml_merge_entries(te, se.drop_last(), fuel) {
            Some(acc) => {
                let k = se.last().0;
                let sv = se.last().1;
                match yaml_key_position(acc, k) {
                    Some(i) => match yaml_merge(acc[i as int].1, sv, fuel) {
                        Some(m) => Some(acc.update(i as int, acc.last()).drop_last().push((k, m))),
                        None => None,
                    },
                    None => Some(acc.push((k, sv))),
                }
            },
            None => None,
        }
    }
}

/// Once a prefix of the source entries fails to merge, so do all of them.
proof fn lemma_yaml_merge_prefix(
    te: Seq<(serde_yaml::Value, serde_yaml::Value)>,
    se: Seq<(serde_yaml::Value, serde_yaml::Value)>,
    fuel: nat,
    j: int,
)
    requires
        0 <= j <= se.len(),
        yaml_merge_entries(te, se.subrange(0, j), fuel).is_none(),
    ensures
        yaml_merge_entries(te, se, fuel).is_none(),
    decreases se.len() - j,
{
    if j < se.len() {
        assert(se.subrange(0, j + 1).drop_last() =~= se.subrange(0, j));
        lemma_yaml_merge_prefix(te, se, fuel, j + 1);
    } else {
        assert(se.subrange(0, j) =~= se);
    }
}

/// The value the entries `es` hold under a key equal to `k`, found as a
/// mapping finds it.
pub open spec fn yaml_value_at(es: Seq<(serde_yaml::Value, serde_yaml::Value)>, k: serde_yaml::Value) -> Option<
    serde_yaml::Value,
> {
    match yaml_key_position(es, k) {
        Some(i) => Some(es[i as int].1),
        None => None,
    }
}

/// Whether `==` on YAML values is symmetric and transitive, as
/// `serde_yaml::Value`'s equality is (NaN equals NaN there).
pub open spec fn yaml_equality_is_equivalence() -> bool {
    &&& forall|a: serde_yaml::Value, b: serde_yaml::Value|
        #[trigger] yaml_values_equal(a, b) ==> yaml_values_equal(b, a)
    &&& forall|a: serde_yaml::Value, b: serde_yaml::Value, c: serde_yaml::Value|
        #[trigger] yaml_values_equal(a, b) && #[trigger] yaml_values_equal(b, c)
            ==> yaml_values_equal(a, c)
}

/// Whether no two entries of `es` have equal keys, as in a mapping.
pub open spec fn yaml_keys_distinct(es: Seq<(serde_yaml::Value, serde_yaml::Value)>) -> bool {
    forall|x: int, y: int|
        0 <= x < y < es.len() ==> !yaml_values_equal(#[trigger] es[x].0, #[trigger] es[y].0)
}

/// `yaml_key_position` finds the first entry whose key equals `k`.
proof fn lemma_yaml_key_position(es: Seq<(serde_yaml::Value, serde_yaml::Value)>, k: serde_yaml::Value)
    ensures
        match yaml_key_position(es, k) {
            Some(i) => i < es.len() && yaml_values_equal(es[i as int].0, k) && forall|x: int|
                0 <= x < i ==> !yaml_values_equal(#[trigger] es[x].0, k),
            None => forall|x: int| 0 <= x < es.len() ==> !yaml_values_equal(#[trigger] es[x].0, k),
        },
    decreases es.len(),
{
    if es.len() > 0 {
        let rest = es.drop_last();
        lemma_yaml_key_position(rest, k);
        assert forall|x: int| 0 <= x < rest.len() implies #[trigger] rest[x] == es[x] by {}
        match yaml_key_position(rest, k) {
            Some(i) => {
                assert(yaml_key_position(es, k) == Some(i));
                assert forall|x: int| 0 <= x < i implies !yaml_values_equal(#[trigger] es[x].0, k) by {
                    assert(rest[x] == es[x]);
                }
            },
            None => {
                assert forall|x: int| 0 <= x < rest.len() implies !yaml_values_equal(#[trigger] es[x].0, k) by {
                    assert(rest[x] == es[x]);
                }
            },
        }
    }
}

/// In entries with distinct keys, a key equal to that of entry `x` is found
/// at `x`.
proof fn lemma_yaml_found_at(es: Seq<(serde_yaml::Value, serde_yaml::Value)>, k: serde_yaml::Value, x: int)
    requires
        yaml_equality_is_equivalence(),
        yaml_keys_distinct(es),
        0 <= x < es.len(),
        yaml_values_equal(es[x].0, k),
    ensures
        yaml_key_position(es, k) == Some(x as nat),
        yaml_value_at(es, k) == Some(es[x].1),
{
    lemma_yaml_key_position(es, k);
    let i = yaml_key_position(es, k).unwrap() as int;
    if i > x {
        assert(!yaml_values_equal(es[x].0, k));
    } else if i < x {
        assert(yaml_values_equal(k, es[x].0));
        assert(yaml_values_equal(es[i].0, es[x].0));
    }
}

/// In entries with distinct keys, what is held under `k` is the value of
/// the entry whose key equals `k`, if any.
proof fn lemma_yaml_value_at(es: Seq<(serde_yaml::Value, serde_yaml::Value)>, k: serde_yaml::Value)
    requires
        yaml_equality_is_equivalence(),
        yaml_keys_distinct(es),
    ensures
        (forall|x: int| 0 <= x < es.len() ==> !yaml_values_equal(#[trigger] es[x].0, k))
            ==> yaml_value_at(es, k).is_none(),
        forall|x: int|
            0 <= x < es.len() && yaml_values_equal(#[trigger] es[x].0, k) ==> yaml_value_at(es, k)
                == Some(es[x].1),
{
    lemma_yaml_key_position(es, k);
    assert forall|x: int|
        0 <= x < es.len() && yaml_values_equal(#[trigger] es[x].0, k) implies yaml_value_at(es, k)
        == Some(es[x].1) by {
        lemma_yaml_found_at(es, k, x);
    }
}

/// One step of a mapping merge keeps the keys distinct, and changes what is
/// held only under keys equal to the key written.
proof fn lemma_yaml_merge_step(
    acc: Seq<(serde_yaml::Value, serde_yaml::Value)>,
    es: Seq<(serde_yaml::Value, serde_yaml::Value)>,
    k0: serde_yaml::Value,
    v0: serde_yaml::Value,
)
    requires
        yaml_equality_is_equivalence(),
        yaml_keys_distinct(acc),
        match yaml_key_position(acc, k0) {
            Some(i) => es == acc.update(i as int, acc.last()).drop_last().push((k0, v0)),
            None => es == acc.push((k0, v0)),
        },
    ensures
        yaml_keys_distinct(es),
        forall|k: serde_yaml::Value| #[trigger]
            yaml_values_equal(k0, k) ==> yaml_value_at(es, k) == Some(v0),
        forall|k: serde_yaml::Value|
            !yaml_values_equal(k0, k) ==> #[trigger] yaml_value_at(es, k) == yaml_value_at(acc, k),
{
    lemma_yaml_key_position(acc, k0);
    let n = es.len() - 1;
    // Every entry of `es` but the last is an entry of `acc` whose key is not
    // equal to `k0`, and every such entry of `acc` is in `es`.
    let src = |x: int|
        match yaml_key_position(acc, k0) {
            Some(i) => if x == i { acc.len() - 1 } else { x },
            None => x,
        };
    assert forall|x: int| 0 <= x < n implies 0 <= #[trigger] src(x) < acc.len() && es[x] == acc[src(x)]
        && !yaml_values_equal(acc[src(x)].0, k0) by {
        match yaml_key_position(acc, k0) {
            Some(i) => {
                let j = src(x);
                if yaml_values_equal(acc[j].0, k0) {
                    assert(j != i as int);
                    assert(yaml_values_equal(k0, acc[i as int].0));
                    assert(yaml_values_equal(acc[j].0, acc[i as int].0));
                    assert(yaml_values_equal(acc[i as int].0, acc[j].0));
                }
            },
            None => {},
        }
    }
    assert forall|y: int|
        0 <= y < acc.len() && !yaml_values_equal(acc[y].0, k0) implies exists|x: int|
        0 <= x < n && #[trigger] src(x) == y by {
        match yaml_key_position(acc, k0) {
            Some(i) => {
                if y == acc.len() - 1 {
                    assert(src(i as int) == y);
                } else {
                    assert(y != i as int);
                    assert(src(y) == y);
                }
            },
            None => {
                assert(src(y) == y);
            },
        }
    }
    assert(es[n] == (k0, v0));
    assert forall|x: int, y: int| 0 <= x < y < es.len() implies !yaml_values_equal(
        #[trigger] es[x].0,
        #[trigger] es[y].0,
    ) by {
        if y == n {
            assert(!yaml_values_equal(acc[src(x)].0, k0));
        } else {
            assert(src(x) != src(y)) by {
                match yaml_key_position(acc, k0) {
                    Some(i) => {},
                    None => {},
                }
            }
            if src(x) < src(y) {
                assert(!yaml_values_equal(acc[src(x)].0, acc[src(y)].0));
            } else {
                assert(!yaml_values_equal(acc[src(y)].0, acc[src(x)].0));
            }
        }
    }
    assert forall|k: serde_yaml::Value| #[trigger]
        yaml_values_equal(k0, k) implies yaml_value_at(es, k) == Some(v0) by {
        assert(yaml_values_equal(es[n].0, k));
        lemma_yaml_found_at(es, k, n);
    }
    assert forall|k: serde_yaml::Value|
        !yaml_values_equal(k0, k) implies #[trigger] yaml_value_at(es, k) == yaml_value_at(acc, k) by {
        lemma_yaml_value_at(es, k);
        lemma_yaml_value_at(acc, k);
        if exists|y: int| 0 <= y < acc.len() && yaml_values_equal(#[trigger] acc[y].0, k) {
            let y = choose|y: int| 0 <= y < acc.len() && yaml_values_equal(#[trigger] acc[y].0, k);
            if yaml_values_equal(acc[y].0, k0) {
                assert(yaml_values_equal(k0, acc[y].0));
                assert(yaml_values_equal(k0, k));
            }
            let x = choose|x: int| 0 <= x < n && #[trigger] src(x) == y;
            assert(es[x] == acc[y]);
        } else {
            assert forall|x: int| 0 <= x < es.len() implies !yaml_values_equal(#[trigger] es[x].0, k) by {
                if x < n {
                    assert(es[x] == acc[src(x)]);
                }
            }
        }
    }
}

/// What merging the source entries `se` into the target entries `te` holds
/// under each key, for mappings (distinct keys, and `==` an equivalence as
/// serde_yaml's is): a key of the target that no source key equals keeps
/// the target's value; a key of the source gets the source's value when
/// the target has no equal key, and the merge of the two values otherwise.
/// So the keys of the result are those of the target and of the source.
pub proof fn yaml_merge_entries_lookup(
    te: Seq<(serde_yaml::Value, serde_yaml::Value)>,
    se: Seq<(serde_yaml::Value, serde_yaml::Value)>,
    fuel: nat,
    k: serde_yaml::Value,
)
    requires
        yaml_equality_is_equivalence(),
        yaml_keys_distinct(te),
        yaml_keys_distinct(se),
        yaml_merge_entries(te, se, fuel).is_some(),
    ensures
        yaml_keys_distinct(yaml_merge_entries(te, se, fuel).unwrap()),
        (forall|j: int| 0 <= j < se.len() ==> !yaml_values_equal(#[trigger] se[j].0, k)) ==> yaml_value_at(
            yaml_merge_entries(te, se, fuel).unwrap(),
            k,
        ) == yaml_value_at(te, k),
        forall|j: int|
            0 <= j < se.len() && yaml_values_equal(#[trigger] se[j].0, k) ==> yaml_value_at(
                yaml_merge_entries(te, se, fuel).unwrap(),
                k,
            ) == Some(
                match yaml_value_at(te, k) {
                    Some(tv) => yaml_merge(tv, se[j].1, fuel).unwrap(),
                    None => se[j].1,
                },
            ),
    decreases se.len(),
{
    if se.len() > 0 {
        let n = se.len() - 1;
        let rest = se.drop_last();
        assert forall|x: int, y: int| 0 <= x < y < rest.len() implies !yaml_values_equal(
            #[trigger] rest[x].0,
            #[trigger] rest[y].0,
        ) by {
            assert(rest[x] == se[x] && rest[y] == se[y]);
        }
        let acc = yaml_merge_entries(te, rest, fuel).unwrap();
        let es = yaml_merge_entries(te, se, fuel).unwrap();
        let k0 = se[n].0;
        let sv = se[n].1;
        let v0 = match yaml_key_position(acc, k0) {
            Some(i) => yaml_merge(acc[i as int].1, sv, fuel).unwrap(),
            None => sv,
        };
        // What the target holds under `k0` is still in `acc`.
        yaml_merge_entries_lookup(te, rest, fuel, k0);
        lemma_yaml_key_position(acc, k0);
        lemma_yaml_merge_step(acc, es, k0, v0);
        assert forall|j: int| 0 <= j < rest.len() implies !yaml_values_equal(#[trigger] rest[j].0, k0) by {
            assert(rest[j] == se[j]);
        }
        match yaml_key_position(acc, k0) {
            Some(i) => {
                assert(yaml_value_at(acc, k0) == Some(acc[i as int].1));
            },
            None => {},
        }
        // Now any key `k`.
        yaml_merge_entries_lookup(te, rest, fuel, k);
        if yaml_values_equal(k0, k) {
            assert(yaml_value_at(es, k) == Some(v0));
            assert forall|j: int| 0 <= j < rest.len() implies !yaml_values_equal(#[trigger] rest[j].0, k) by {
                assert(rest[j] == se[j]);
                if yaml_values_equal(se[j].0, k) {
                    assert(yaml_values_equal(k, k0));
                    assert(yaml_values_equal(se[j].0, k0));
                }
            }
            lemma_yaml_value_at(acc, k);
            lemma_yaml_value_at(acc, k0);
            match yaml_key_position(acc, k0) {
                Some(i) => {
                    assert(yaml_values_equal(acc[i as int].0, k));
                },
                None => {
                    if exists|y: int| 0 <= y < acc.len() && yaml_values_equal(#[trigger] acc[y].0, k) {
                        let y = choose|y: int| 0 <= y < acc.len() && yaml_values_equal(#[trigger] acc[y].0, k);
                        assert(yaml_values_equal(k, k0));
                        assert(yaml_values_equal(acc[y].0, k0));
                    }
                },
            }
            assert forall|j: int| 0 <= j < se.len() && yaml_values_equal(#[trigger] se[j].0, k) implies j == n by {
                if j < n {
                    assert(rest[j] == se[j]);
                }
            }
        } else {
            assert(yaml_value_at(es, k) == yaml_value_at(acc, k));
            assert forall|j: int| 0 <= j < se.len() && yaml_values_equal(#[trigger] se[j].0, k) implies j < n
                && rest[j] == se[j] by {
                if j == n {
                    assert(yaml_values_equal(k0, k));
                }
            }
        }
    }
}

/// The YAML merge rule: when both values are mappings (with distinct keys,
/// `==` an equivalence), the result is the mapping of the merged entries,
/// whose keys are the target's and the source's, each holding what
/// `yaml_merge_entries_lookup` says; when either is not a mapping, the
/// source replaces the target.
pub proof fn yaml_merge_rule(t: serde_yaml::Value, s: serde_yaml::Value, fuel: nat)
    requires
        fuel > 0,
    ensures
        yaml_mapping_entries(t).is_none() || yaml_mapping_entries(s).is_none() ==> yaml_merge(
            t,
            s,
            fuel,
        ) == Some(s),
        yaml_mapping_entries(t).is_some() && yaml_mapping_entries(s).is_some() && yaml_merge(
            t,
            s,
            fuel,
        ).is_some() ==> yaml_merge(t, s, fuel) == Some(
            yaml_mapping_of(
                yaml_merge_entries(
                    yaml_mapping_entries(t).unwrap(),
                    yaml_mapping_entries(s).unwrap(),
                    (fuel - 1) as nat,
                ).unwrap(),
            ),
        ),
{
}

/// Whether a YAML value nests at most `d` levels deep: a value that is not
/// a mapping takes one level, a mapping one more than its deepest value.
pub open spec fn yaml_nests_within(v: serde_yaml::Value, d: nat) -> bool
    decreases d,
{
    d > 0 && match yaml_mapping_entries(v) {
        None => true,
        Some(es) => forall|i: int|
            0 <= i < es.len() ==> yaml_nests_within(#[trigger] es[i].1, (d - 1) as nat),
    }
}

/// A merge whose source nests within `d <= fuel` levels succeeds.
proof fn lemma_yaml_merge_some(t: serde_yaml::Value, s: serde_yaml::Value, fuel: nat, d: nat)
    requires
        yaml_nests_within(s, d),
        d <= fuel,
    ensures
        yaml_merge(t, s, fuel).is_some(),
    decreases fuel, 0nat,
{
    if let Some(te) = yaml_mapping_entries(t) {
        if let Some(se) = yaml_mapping_entries(s) {
            lemma_yaml_merge_entries_some(te, se, (fuel - 1) as nat, (d - 1) as nat);
        }
    }
}

/// Merging source entries whose values nest within `d <= fuel` levels
/// succeeds.
proof fn lemma_yaml_merge_entries_some(
    te: Seq<(serde_yaml::Value, serde_yaml::Value)>,
    se: Seq<(serde_yaml::Value, serde_yaml::Value)>,
    fuel: nat,
    d: nat,
)
    requires
        forall|i: int| 0 <= i < se.len() ==> yaml_nests_within(#[trigger] se[i].1, d),
        d <= fuel,
    ensures
        yaml_merge_entries(te, se, fuel).is_some(),
    decreases fuel, se.len(),
{
    if se.len() > 0 {
        assert forall|i: int| 0 <= i < se.drop_last().len() implies yaml_nests_within(
            #[trigger] se.drop_last()[i].1,
            d,
        ) by {
            assert(se.drop_last()[i] == se[i]);
        }
        lemma_yaml_merge_entries_some(te, se.drop_last(), fuel, d);
        let acc = yaml_merge_entries(te, se.drop_last(), fuel).unwrap();
        assert(yaml_nests_within(se[se.len() - 1].1, d));
        if let Some(i) = yaml_key_position(acc, se.last().0) {
            lemma_yaml_merge_some(acc[i as int].1, se.last().1, fuel, d);
        }
    }
}

/// A YAML merge never fails on a source that nests within the levels it may
/// recurse: whatever the target, `yaml_merge(t, s, fuel)` succeeds when `s`
/// nests within `d <= fuel` levels.
pub proof fn yaml_merge_succeeds_within_depth(t: serde_yaml::Value, s: serde_yaml::Value, fuel: nat)
    ensures
        forall|d: nat| d <= fuel && #[trigger] yaml_nests_within(s, d) ==> yaml_merge(
            t,
            s,
            fuel,
        ).is_some(),
{
    assert forall|d: nat| d <= fuel && #[trigger] yaml_nests_within(s, d) implies yaml_merge(
        t,
        s,
        fuel,
    ).is_some() by {
        lemma_yaml_merge_some(t, s, fuel, d);
    }
}

/// Deep-merge the YAML value `source` into `target` on the target's own
/// mapping, recursing at most `fuel` levels: each source entry takes the
/// entry with an equal key out of the mapping and is inserted again with
/// the two values merged, or is inserted as it is.
pub fn merge_yaml_values(target: serde_yaml::Value, source: serde_yaml::Value, fuel: usize) -> (r:
    Option<serde_yaml::Value>)
    ensures
        r == yaml_merge(target, source, fuel as nat),
        fuel > 0 && yaml_mapping_entries(target).is_some() && yaml_mapping_entries(source).is_some()
            ==> yaml_keys_distinct(yaml_mapping_entries(target).unwrap()) && yaml_keys_distinct(
            yaml_mapping_entries(source).unwrap(),
        ),
    decreases fuel,
{
    if fuel == 0 {
        return None;
    }
    let ghost t0 = target;
    let ghost s0 = source;
    let mut tm = match as_yaml_mapping(target) {
        Ok(m) => m,
        Err(_) => return Some(source),
    };
    let se = match split_yaml(source) {
        Ok(es) => es,
        Err(x) => return Some(x),
    };
    let ghost te = yaml_mapping_contents(tm);
    let ghost sev = se@;
    let ghost f1 = (fuel - 1) as nat;
    let n = se.len();
    let mut rest = se;
    let mut j: usize = 0;
    proof {
        assert(sev.subrange(0, 0) =~= Seq::<(serde_yaml::Value, serde_yaml::Value)>::empty());
        assert(rest@.subrange(0, n as int) =~= rest@);
    }
    #[verifier::loop_isolation(false)]
    while j < n
        invariant
            fuel > 0,
            f1 == fuel - 1,
            j <= n == sev.len(),
            rest@.len() == n - j,
            yaml_mapping_entries(t0) == Some(te),
            yaml_mapping_entries(s0) == Some(sev),
            rest@ == sev.subrange(j as int, n as int),
            yaml_merge_entries(te, sev.subrange(0, j as int), f1) == Some(yaml_mapping_contents(tm)),
        decreases n - j,
    {
        let (k, sv) = rest.remove(0);
        proof {
            assert(rest@ =~= sev.subrange(j + 1, n as int));
            assert(sev.subrange(0, j + 1).drop_last() =~= sev.subrange(0, j as int));
            assert(sev[j as int] == (k, sv));
        }
        let ghost acc = yaml_mapping_contents(tm);
        let removed = yaml_mapping_remove(&mut tm, &k);
        let merged = match removed {
            Some(tv) => {
                proof {
                    let i = yaml_key_position(acc, k).unwrap();
                    assert(tv == acc[i as int].1);
                }
                match merge_yaml_values(tv, sv, fuel - 1) {
                    Some(m) => m,
                    None => {
                        proof {
                            lemma_yaml_merge_prefix(te, sev, f1, j + 1);
                        }
                        return None;
                    },
                }
            },
            None => sv,
        };
        yaml_mapping_insert(&mut tm, k, merged);
        j = j + 1;
    }
    proof {
        assert(sev.subrange(0, n as int) =~= sev);
    }
    let es = yaml_mapping_into_entries(tm);
    Some(join_yaml(es))
}

/// Deep-merge two YAML texts and write the result out: source values
/// overwrite target values for conflicting keys, nested mappings are
/// merged recursively, and sequences and scalars are replaced by the
/// source. Keys are matched as `serde_yaml::Value`s. The source is read
/// first, so when both texts are invalid the source is the one reported.
pub fn merge_yaml_texts(target: &str, source: &str) -> (r: Result<String, DocMergeError>)
    ensures
        (r == Err::<String, DocMergeError>(DocMergeError::SourceParse)) == yaml_parse(
            source@,
        ).is_none(),
        (r == Err::<String, DocMergeError>(DocMergeError::TargetParse)) == (yaml_parse(
            source@,
        ).is_some() && yaml_parse(target@).is_none()),
        (r == Err::<String, DocMergeError>(DocMergeError::Convert)) == (yaml_parse(source@).is_some()
            && yaml_parse(target@).is_some() && yaml_merge(
            yaml_parse(target@).unwrap(),
            yaml_parse(source@).unwrap(),
            nesting_limit(),
        ).is_none()),
        r matches Ok(s) ==> yaml_text(
            yaml_merge(
                yaml_parse(target@).unwrap(),
                yaml_parse(source@).unwrap(),
                nesting_limit(),
            ).unwrap(),
        ) == Some(s@),
        yaml_parse(source@).is_some() && yaml_parse(target@).is_some() && yaml_mapping_entries(
            yaml_parse(target@).unwrap(),
        ).is_some() && yaml_mapping_entries(yaml_parse(source@).unwrap()).is_some()
            ==> yaml_keys_distinct(yaml_mapping_entries(yaml_parse(target@).unwrap()).unwrap())
            && yaml_keys_distinct(yaml_mapping_entries(yaml_parse(source@).unwrap()).unwrap()),
        r == Err::<String, DocMergeError>(DocMergeError::Render) ==> yaml_text(
            yaml_merge(
                yaml_parse(target@).unwrap(),
                yaml_parse(source@).unwrap(),
                nesting_limit(),
            ).unwrap(),
        ).is_none(),
        yaml_parse(source@).is_some() && yaml_parse(target@).is_some() && yaml_merge(
            yaml_parse(target@).unwrap(),
            yaml_parse(source@).unwrap(),
            nesting_limit(),
        ).is_some() && yaml_text(
            yaml_merge(
                yaml_parse(target@).unwrap(),
                yaml_parse(source@).unwrap(),
                nesting_limit(),
            ).unwrap(),
        ).is_some() ==> r is Ok,
{
    let src = match parse_yaml_value(source) {
        Some(v) => v,
        None => return Err(DocMergeError::SourceParse),
    };
    let tgt = match parse_yaml_value(target) {
        Some(v) => v,
        None => return Err(DocMergeError::TargetParse),
    };
    let v = match merge_yaml_values(tgt, src, usize::MAX) {
        Some(v) => v,
        None => return Err(DocMergeError::Convert),
    };
    match yaml_to_text(&v) {
        Some(s) => Ok(s),
        None => Err(DocMergeError::Render),
    }
}

} // verus!
