use pairs_rs::extras::factors_of;
use pairs_rs::utils::squarest_rect_with_even_area;

#[test]
fn factors_of_exact_values() {
    assert_eq!(factors_of(36), vec![1, 2, 3, 4, 6, 9, 12, 18, 36]);
    assert_eq!(factors_of(1), vec![1]);
    assert_eq!(factors_of(13), vec![1, 13]);
    assert_eq!(factors_of(0), Vec::<u32>::new());
}

#[test]
fn squarest_rect_exact_values() {
    assert_eq!(squarest_rect_with_even_area(18), [6, 6]);
    assert_eq!(squarest_rect_with_even_area(3), [2, 3]);
    assert_eq!(squarest_rect_with_even_area(1), [1, 2]);
    assert_eq!(squarest_rect_with_even_area(2), [2, 2]);
    assert_eq!(squarest_rect_with_even_area(26), [4, 13]);
    assert_eq!(squarest_rect_with_even_area(0), [0, 0]);
}

#[test]
fn squarest_rect_minimal_aspect_for_all_valid_sizes() {
    for s in 1u32..=26 {
        let [a, b] = squarest_rect_with_even_area(s);
        let area = 2 * s;
        assert_eq!(a * b, area);
        assert!(a <= b);
        for x in 1..=area {
            if area % x == 0 {
                let y = area / x;
                if x <= y {
                    assert!(b - a <= y - x, "size {}: [{}, {}] not squarest", s, a, b);
                }
            }
        }
    }
}
