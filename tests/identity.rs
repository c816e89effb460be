use invaders::game::{get_next_id, IdSource};

#[test]
fn ids_strictly_increase_and_never_repeat() {
    let mut ids = IdSource::new();
    let mut seen: Vec<u128> = Vec::new();
    for _ in 0..100 {
        let id = get_next_id(&mut ids);
        if let Some(last) = seen.last() {
            assert!(id > *last);
        }
        assert!(!seen.contains(&id));
        seen.push(id);
    }
    assert_eq!(seen[0], 1);
    assert_eq!(seen[99], 100);
    assert_eq!(ids.next, 101);
}

#[test]
fn ids_left_counts_down() {
    let mut ids = IdSource::new();
    let before = ids.left();
    get_next_id(&mut ids);
    assert_eq!(ids.left(), before - 1);
}
