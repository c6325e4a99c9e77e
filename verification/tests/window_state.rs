use stremio_shell::window::WindowStyle;

fn style(full_screen: bool) -> WindowStyle {
    WindowStyle { full_screen, pos: (0, 0), size: (0, 0), style: 0, ex_style: 0 }
}

#[test]
fn state_word_bits() {
    assert_eq!(style(false).get_window_state(false, false, false), 0);
    assert_eq!(style(false).get_window_state(true, false, false), 1);
    assert_eq!(style(false).get_window_state(false, true, false), 2);
    assert_eq!(style(true).get_window_state(false, false, false), 4);
    assert_eq!(style(false).get_window_state(false, false, true), 8);
    assert_eq!(style(true).get_window_state(true, true, true), 15);
}

#[test]
fn centering_respects_minimums() {
    let mut st = style(false);
    st.center_window(1920, 1080, 1000, 600);
    // seventy percent of 1080 is 756; 16:9 of that is 1344
    assert_eq!(st.size, (1344, 756));
    assert_eq!(st.pos, ((1920 - 1344) / 2, (1080 - 756) / 2));
    let mut small = style(false);
    small.center_window(800, 600, 1000, 600);
    assert_eq!(small.size.0, 1000);
    assert_eq!(small.size.1, 600);
}
