use gudritis_axum::deck::SlideStack;

#[test]
fn empty_slide_stack() {
    let mut slide_stack = SlideStack::new(0);
    let slide = slide_stack.current_slide();
    assert_eq!(None, slide);
    let next_slide = slide_stack.next_slide(0);
    assert_eq!(None, next_slide);
    let slide = slide_stack.current_slide();
    assert_eq!(None, slide);
}

#[test]
fn slide_stack() {
    let mut slide_stack = SlideStack::new(12);
    let slide = slide_stack.current_slide();
    assert_eq!(None, slide);
    let mut vec: Vec<usize> = (0..12).collect();
    for _ in 0..12 {
        let slide = slide_stack.next_slide(0).unwrap();
        let i = vec.iter().position(|num| *num == slide).unwrap();
        vec.remove(i);
        assert_eq!(slide, slide_stack.current_slide().unwrap().index);
    }
    assert_eq!(None, slide_stack.next_slide(0));
    assert_eq!(None, slide_stack.current_slide());
}

#[test]
fn deck_deals_every_slide_once_then_stays_exhausted() {
    for n in [0usize, 1, 2, 7] {
        let mut deck = SlideStack::new(n);
        let mut seen = vec![false; n];
        for step in 0..n {
            let index = deck.next_slide(step as u64 * 10).unwrap();
            assert!(index < n);
            assert!(!seen[index]);
            seen[index] = true;
            let current = deck.current_slide().unwrap();
            assert_eq!(index, current.index);
            assert_eq!(step as u64 * 10, current.starting_time);
        }
        assert!(seen.iter().all(|s| *s));
        for _ in 0..3 {
            assert_eq!(None, deck.next_slide(99));
            assert_eq!(None, deck.current_slide());
        }
    }
}

#[test]
fn deck_order_is_shuffled() {
    // Without shuffling, a deck of 12 would always deal 11, 10, ..., 0; the
    // chance that five shuffled decks all do so is negligible.
    let unshuffled: Vec<usize> = (0..12).rev().collect();
    let mut orders = Vec::new();
    for _ in 0..5 {
        let mut deck = SlideStack::new(12);
        let order: Vec<usize> = (0..12).map(|_| deck.next_slide(0).unwrap()).collect();
        orders.push(order);
    }
    assert!(orders.iter().any(|o| *o != unshuffled));
}
