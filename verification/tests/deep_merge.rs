use home_sync::merge::{deep_merge, Tree};

fn obj(entries: Vec<(&str, Tree<i64>)>) -> Tree<i64> {
    Tree::Object(entries.into_iter().map(|(k, v)| (k.to_string(), v)).collect())
}

fn leaf(x: i64) -> Tree<i64> {
    Tree::Leaf(x)
}

fn show(t: &Tree<i64>) -> String {
    match t {
        Tree::Leaf(x) => x.to_string(),
        Tree::Object(es) => {
            let parts: Vec<String> = es.iter().map(|(k, v)| format!("{}:{}", k, show(v))).collect();
            format!("{{{}}}", parts.join(","))
        }
    }
}

#[test]
fn objects_merge_recursively() {
    let target = obj(vec![("a", leaf(1)), ("b", obj(vec![("x", leaf(1))]))]);
    let source = obj(vec![("b", obj(vec![("y", leaf(2))])), ("c", leaf(3))]);
    assert_eq!(show(&deep_merge(target, source)), "{a:1,b:{x:1,y:2},c:3}");
}

#[test]
fn source_scalars_override() {
    let target = obj(vec![("a", leaf(1)), ("b", leaf(2))]);
    let source = obj(vec![("b", leaf(20))]);
    assert_eq!(show(&deep_merge(target, source)), "{a:1,b:20}");
}

#[test]
fn merged_key_moves_to_the_end() {
    let target = obj(vec![("a", leaf(1)), ("b", leaf(2)), ("c", leaf(3))]);
    let source = obj(vec![("a", leaf(9))]);
    assert_eq!(show(&deep_merge(target, source)), "{c:3,b:2,a:9}");
}

#[test]
fn non_object_source_replaces_target() {
    let target = obj(vec![("a", leaf(1))]);
    assert_eq!(show(&deep_merge(target, leaf(7))), "7");
    let source = obj(vec![("a", leaf(1))]);
    assert_eq!(show(&deep_merge(leaf(5), source)), "{a:1}");
}

#[test]
fn target_only_keys_are_kept() {
    let target = obj(vec![("keep", leaf(1))]);
    let source = obj(vec![]);
    assert_eq!(show(&deep_merge(target, source)), "{keep:1}");
}

fn sorted(t: &Tree<i64>) -> String {
    match t {
        Tree::Leaf(x) => x.to_string(),
        Tree::Object(es) => {
            let mut parts: Vec<String> = es.iter().map(|(k, v)| format!("{}:{}", k, sorted(v))).collect();
            parts.sort();
            format!("{{{}}}", parts.join(","))
        }
    }
}

fn sample_target() -> Tree<i64> {
    obj(vec![("a", leaf(1)), ("b", obj(vec![("x", leaf(1)), ("y", leaf(1))])), ("c", leaf(3)), ("d", leaf(4))])
}

fn sample_source() -> Tree<i64> {
    obj(vec![("d", leaf(40)), ("b", obj(vec![("y", leaf(2)), ("z", leaf(3))])), ("a", leaf(10)), ("e", leaf(5))])
}

#[test]
fn merging_twice_gives_the_same_document() {
    let once = deep_merge(sample_target(), sample_source());
    let twice = deep_merge(deep_merge(sample_target(), sample_source()), sample_source());
    assert_eq!(sorted(&once), sorted(&twice));
    assert_eq!(sorted(&once), "{a:10,b:{x:1,y:2,z:3},c:3,d:40,e:5}");
}

#[test]
fn merging_a_tree_into_itself_keeps_it() {
    let merged = deep_merge(sample_target(), sample_target());
    assert_eq!(sorted(&merged), sorted(&sample_target()));
}
