use otty_surface::index::SelectionType;
use otty_surface::mode::SurfaceMode;
use otty_surface::ui::event::{reports_mouse, selection_type_for_press};

#[test]
fn presses_pick_the_selection_kind() {
    assert_eq!(selection_type_for_press(true, 2), SelectionType::Block);
    assert_eq!(selection_type_for_press(false, 1), SelectionType::Simple);
    assert_eq!(selection_type_for_press(false, 2), SelectionType::Semantic);
    assert_eq!(selection_type_for_press(false, 3), SelectionType::Lines);
    assert_eq!(selection_type_for_press(false, 7), SelectionType::Lines);
    assert_eq!(selection_type_for_press(false, 0), SelectionType::Simple);
}

#[test]
fn shift_bypasses_mouse_reporting() {
    let reporting = SurfaceMode::new(SurfaceMode::MOUSE_REPORT_CLICK);
    assert!(reports_mouse(reporting, false));
    assert!(!reports_mouse(reporting, true));
    assert!(!reports_mouse(SurfaceMode::empty(), false));
}
