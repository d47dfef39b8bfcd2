use weylus::geometry::centered_position;

#[test]
fn popup_centered_on_window() {
    assert_eq!(centered_position(100, 50, 660, 600, 296, 296), (282, 202));
    assert_eq!(centered_position(0, 0, 661, 601, 296, 296), (182, 152));
}

#[test]
fn larger_popup_rounds_toward_zero() {
    assert_eq!(centered_position(10, 10, 100, 100, 105, 107), (8, 7));
}

#[test]
fn law_popup_is_centered() {
    for (wx, ww, w) in [(10, 660, 296), (0, 661, 296), (5, 100, 107), (-20, 50, 51)] {
        let (x, _) = centered_position(wx, 0, ww, 10, w, 10);
        let gap = (2 * x + w) - (2 * wx + ww);
        assert!((-1..=1).contains(&gap));
        if (ww - w) % 2 == 0 {
            assert_eq!(gap, 0);
        }
    }
}
