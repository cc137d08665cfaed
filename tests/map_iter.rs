use ndc_odata::map_iter::{filter_map_keys, filter_map_values, map_keys, map_values};
use std::collections::BTreeMap;

#[test]
fn map_keys_example() {
    let original = BTreeMap::from([(1, "foo"), (2, "bar"), (3, "baz")]);

    assert_eq!(
        map_keys(original.into_iter().collect(), |x| x + 1)
            .into_iter()
            .collect::<BTreeMap<_, _>>(),
        BTreeMap::from([(2, "foo"), (3, "bar"), (4, "baz")])
    )
}

#[test]
fn map_values_example() {
    let original = BTreeMap::from([("foo", 1), ("bar", 2), ("baz", 3)]);

    assert_eq!(
        map_values(original.into_iter().collect(), |x| x + 1)
            .into_iter()
            .collect::<BTreeMap<_, _>>(),
        BTreeMap::from([("foo", 2), ("bar", 3), ("baz", 4)])
    )
}

#[test]
fn filter_map_keys_example() {
    let original = BTreeMap::from([(1, "foo"), (2, "bar"), (3, "baz")]);

    assert_eq!(
        filter_map_keys(original.into_iter().collect(), |x| if x % 2 == 0 {
            None
        } else {
            Some(x + 1)
        })
        .into_iter()
        .collect::<BTreeMap<_, _>>(),
        BTreeMap::from([(2, "foo"), (4, "baz")])
    )
}

#[test]
fn filter_map_values_example() {
    let original = BTreeMap::from([("foo", 1), ("bar", 2), ("baz", 3)]);

    assert_eq!(
        filter_map_values(original.into_iter().collect(), |x| if x % 2 == 0 {
            None
        } else {
            Some(x + 1)
        })
        .into_iter()
        .collect::<BTreeMap<_, _>>(),
        BTreeMap::from([("foo", 2), ("baz", 4)])
    )
}

#[test]
fn map_keys_keeps_order_of_pairs() {
    let out = map_keys(vec![(3, 'a'), (1, 'b')], |k| k * 10);
    assert_eq!(out, vec![(30, 'a'), (10, 'b')]);
}

#[test]
fn filter_map_values_on_empty_input() {
    let out: Vec<(u8, u8)> = filter_map_values(Vec::<(u8, u8)>::new(), |v| Some(v));
    assert!(out.is_empty());
}
