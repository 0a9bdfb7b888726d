use lokey::action::{Action, ActionContext, Output};
use lokey::mouse::{
    HidMouseReport, MouseButton, MouseReport, MoveMouseX, MoveMouseY, ScrollX, ScrollY,
};

fn context(report: Option<MouseReport>) -> ActionContext<'static> {
    ActionContext { layers: None, mouse_report: report, outputs: Vec::new() }
}

#[test]
fn report_empty_clear_and_hid_layout() {
    let mut report = MouseReport { buttons: 3, move_x: 1, move_y: -2, scroll_x: 4, scroll_y: -5 };
    assert_eq!(
        report.to_hid_report(),
        HidMouseReport { buttons: 3, x: 1, y: -2, wheel: -5, pan: 4 }
    );
    report.clear();
    assert_eq!(report, MouseReport::empty());
    assert_eq!(MouseReport::default(), MouseReport::empty());
    assert_eq!(MouseReport::empty().buttons, 0);
}

#[test]
fn buttons_have_one_bit_each() {
    assert_eq!(MouseButton::Button1.mask(), 0b0000_0001);
    assert_eq!(MouseButton::Button5.mask(), 0b0001_0000);
    assert_eq!(MouseButton::Button8.mask(), 0b1000_0000);
}

#[test]
fn press_and_release_buttons() {
    let mut report = MouseReport::empty();
    report.press(MouseButton::Button2);
    report.press(MouseButton::Button3);
    assert_eq!(report.buttons, 0b110);
    assert!(report.is_pressed(MouseButton::Button2));
    report.release(MouseButton::Button2);
    assert_eq!(report.buttons, 0b100);
    assert!(!report.is_pressed(MouseButton::Button2));
    report.release(MouseButton::Button3);
    assert_eq!(report, MouseReport::empty());
}

#[test]
fn button_action_updates_state_and_sends_report() {
    let mut ctx = context(Some(MouseReport::empty()));
    let mut button = MouseButton::Button1;
    button.on_press(&mut ctx);
    assert_eq!(ctx.mouse_report.unwrap().buttons, 1);
    button.on_release(&mut ctx);
    assert_eq!(ctx.mouse_report.unwrap().buttons, 0);
    assert_eq!(ctx.outputs.len(), 2);
    match ctx.outputs[0] {
        Output::Mouse(r) => assert_eq!(r.buttons, 1),
        _ => panic!("expected a mouse report"),
    }
}

#[test]
fn button_action_without_mouse_state_does_nothing() {
    let mut ctx = context(None);
    MouseButton::Button1.on_press(&mut ctx);
    assert!(ctx.outputs.is_empty());
}

#[test]
fn movement_sends_reports_while_held() {
    let mut ctx = context(Some(MouseReport::empty()));
    let mut mv = MoveMouseX::right().step(2).interval(8);
    mv.on_interval(&mut ctx);
    assert!(ctx.outputs.is_empty());
    mv.on_press(&mut ctx);
    mv.on_interval(&mut ctx);
    mv.on_interval(&mut ctx);
    assert_eq!(ctx.outputs.len(), 2);
    assert_eq!(ctx.mouse_report.unwrap().move_x, 3);
    mv.on_release(&mut ctx);
    mv.on_interval(&mut ctx);
    assert_eq!(ctx.outputs.len(), 2);
}

#[test]
fn release_before_press_cancels_next_press() {
    let mut ctx = context(Some(MouseReport::empty()));
    let mut mv = MoveMouseY::up();
    mv.on_release(&mut ctx);
    mv.on_press(&mut ctx);
    mv.on_interval(&mut ctx);
    assert!(ctx.outputs.is_empty());
    mv.on_press(&mut ctx);
    mv.on_interval(&mut ctx);
    assert_eq!(ctx.mouse_report.unwrap().move_y, -1);
}

#[test]
fn scrolling_sets_scroll_fields() {
    let mut ctx = context(Some(MouseReport::empty()));
    let mut sx = ScrollX::left();
    let mut sy = ScrollY::up().step(1);
    sx.on_press(&mut ctx);
    sy.on_press(&mut ctx);
    sx.on_interval(&mut ctx);
    sy.on_interval(&mut ctx);
    let report = ctx.mouse_report.unwrap();
    assert_eq!(report.scroll_x, -1);
    assert_eq!(report.scroll_y, 2);
    let down = ScrollY::down();
    let right = ScrollX::with_step(5);
    let _ = (down, right);
}

#[test]
fn report_bytes_follow_hid_layout() {
    let report = MouseReport { buttons: 1, move_x: -1, move_y: 2, scroll_x: 3, scroll_y: -4 };
    assert_eq!(report.to_report_bytes(), vec![1, 255, 2, 252, 3]);
}
