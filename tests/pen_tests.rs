use ghostwriter::device::DeviceModel;
use ghostwriter::events::InputRecord;
use ghostwriter::pen::{pen_action_records, Pen, PenAction};

fn rec(kind: u16, code: u16, value: i32) -> InputRecord {
    InputRecord { kind, code, value }
}

fn count(actions: &[PenAction], a: PenAction) -> usize {
    actions.iter().filter(|&&x| x == a).count()
}

#[test]
fn pen_down_and_up_records() {
    assert_eq!(
        pen_action_records(PenAction::Down),
        vec![rec(1, 320, 1), rec(1, 330, 1), rec(3, 24, 2630), rec(3, 25, 0), rec(0, 0, 0)]
    );
    assert_eq!(
        pen_action_records(PenAction::Up),
        vec![rec(3, 24, 0), rec(3, 25, 100), rec(1, 330, 0), rec(1, 320, 0), rec(0, 0, 0)]
    );
    assert_eq!(pen_action_records(PenAction::Goto(5, -6)), vec![rec(3, 0, 5), rec(3, 1, -6), rec(0, 0, 0)]);
    assert_eq!(pen_action_records(PenAction::Pause(3)), vec![]);
}

#[test]
fn pen_calls_queue_actions_in_order() {
    let mut pen = Pen::new(DeviceModel::Remarkable2);
    pen.pen_down();
    pen.goto_xy((1, 2));
    pen.goto_xy_virtual((0, 0));
    pen.pen_up();
    assert_eq!(
        pen.take_actions(),
        vec![PenAction::Down, PenAction::Goto(1, 2), PenAction::Goto(20966, 0), PenAction::Up]
    );
    assert!(pen.take_actions().is_empty());
    assert_eq!(pen.max_x_value(), 15725);
    assert_eq!(pen.max_y_value(), 20966);
    assert_eq!(pen.virtual_to_input((768, 1024)), (0, 15725));
}

#[test]
fn draw_line_steps_one_unit_at_a_time() {
    let mut pen = Pen::new(DeviceModel::Remarkable2);
    pen.draw_line((0, 0), (3, 0));
    // three samples, the end point itself is not visited
    assert_eq!(
        pen.take_actions(),
        vec![PenAction::Goto(0, 0), PenAction::Pause(1), PenAction::Goto(1, 0), PenAction::Goto(2, 0)]
    );
}

#[test]
fn draw_line_samples_its_rounded_up_length() {
    let mut pen = Pen::new(DeviceModel::Remarkable2);
    // length 5
    pen.draw_line((0, 0), (3, 4));
    let got: Vec<PenAction> = pen.take_actions().into_iter().filter(|a| !matches!(a, PenAction::Pause(_))).collect();
    assert_eq!(
        got,
        vec![PenAction::Goto(0, 0), PenAction::Goto(0, 0), PenAction::Goto(1, 1), PenAction::Goto(1, 2), PenAction::Goto(2, 3)]
    );
}

#[test]
fn draw_line_diagonal_and_backwards() {
    let mut pen = Pen::new(DeviceModel::Remarkable2);
    // squared length 45, rounded-up length 7
    pen.draw_line((0, 0), (3, -6));
    let got: Vec<PenAction> = pen.take_actions().into_iter().filter(|a| !matches!(a, PenAction::Pause(_))).collect();
    assert_eq!(
        got,
        vec![
            PenAction::Goto(0, 0),
            PenAction::Goto(0, 0),
            PenAction::Goto(0, -1),
            PenAction::Goto(1, -2),
            PenAction::Goto(1, -3),
            PenAction::Goto(2, -4),
            PenAction::Goto(2, -5),
        ]
    );
}

#[test]
fn draw_line_of_zero_length_does_nothing() {
    let mut pen = Pen::new(DeviceModel::Remarkable2);
    pen.draw_line((7, 7), (7, 7));
    assert!(pen.take_actions().is_empty());
}

#[test]
fn draw_line_pauses_every_two_hundred_samples() {
    let mut pen = Pen::new(DeviceModel::Remarkable2);
    pen.draw_line((0, 0), (0, 450));
    let actions = pen.take_actions();
    assert_eq!(count(&actions, PenAction::Pause(1)), 3);
    assert_eq!(actions.len(), 450 + 3);
    assert_eq!(actions[201], PenAction::Goto(0, 200));
    assert_eq!(actions[202], PenAction::Pause(1));
    assert_eq!(actions.last(), Some(&PenAction::Goto(0, 449)));
}

#[test]
fn draw_line_across_the_whole_axis_range() {
    let mut pen = Pen::new(DeviceModel::Remarkable2);
    pen.draw_line((i32::MAX, 0), (i32::MAX - 2, 0));
    assert_eq!(
        pen.take_actions(),
        vec![PenAction::Goto(i32::MAX, 0), PenAction::Pause(1), PenAction::Goto(i32::MAX - 1, 0)]
    );
}

#[test]
fn draw_bitmap_one_run() {
    let mut pen = Pen::new(DeviceModel::RemarkablePaperPro);
    pen.draw_bitmap(&vec![vec![true, true, false]]);
    let g = |x: i32| PenAction::Goto(x * 11180 / 768, 0);
    assert_eq!(
        pen.take_actions(),
        vec![
            g(0),
            PenAction::Down,
            PenAction::Pause(1),
            g(0),
            g(1),
            g(1),
            g(2),
            PenAction::Up,
            PenAction::Pause(1),
            PenAction::Up,
            PenAction::Pause(5),
        ]
    );
}

#[test]
fn draw_bitmap_ends_with_pen_lifted() {
    let bitmap = vec![
        vec![true, false, true, true],
        vec![false, false, false, false],
        vec![true, true, true, true],
        vec![false, true, false, true],
    ];
    let mut pen = Pen::new(DeviceModel::Remarkable2);
    pen.draw_bitmap(&bitmap);
    let actions = pen.take_actions();
    let downs = count(&actions, PenAction::Down);
    let ups = count(&actions, PenAction::Up);
    assert_eq!(downs, 5);
    assert!(ups >= downs);
    let last_state = actions.iter().rev().find(|a| matches!(a, PenAction::Up | PenAction::Down));
    assert_eq!(last_state, Some(&PenAction::Up));
}

#[test]
fn draw_bitmap_of_empty_bitmap_does_nothing() {
    let mut pen = Pen::new(DeviceModel::Remarkable2);
    pen.draw_bitmap(&vec![]);
    assert!(pen.take_actions().is_empty());
}

#[test]
fn draw_svg_two_point_polyline() {
    let mut pen = Pen::new(DeviceModel::RemarkablePaperPro);
    pen.draw_svg(&vec![vec![(0, 0), (10, 0)]]);
    let actions = pen.take_actions();
    // lift, move to the start, touch down
    assert_eq!(&actions[..5], &[PenAction::Up, PenAction::Pause(10), PenAction::Goto(0, 0), PenAction::Down, PenAction::Pause(50)]);
    assert_eq!(count(&actions, PenAction::Down), 1);
    assert_eq!(actions.last(), Some(&PenAction::Up));
    assert_eq!(count(&actions[5..], PenAction::Up), 1);
    // 10 canvas units are 145 raw units on this model: samples x = 0..145 at y = 0
    let moves: Vec<PenAction> =
        actions[5..actions.len() - 1].iter().copied().filter(|a| !matches!(a, PenAction::Pause(_))).collect();
    let expected: Vec<PenAction> = (0..145).map(|x| PenAction::Goto(x, 0)).collect();
    assert_eq!(moves, expected);
}

#[test]
fn draw_svg_skips_repeated_points_and_empty_polylines() {
    let mut a = Pen::new(DeviceModel::Remarkable2);
    a.draw_svg(&vec![vec![(1, 1), (1, 1), (2, 1)], vec![]]);
    let mut b = Pen::new(DeviceModel::Remarkable2);
    b.draw_svg(&vec![vec![(1, 1), (2, 1)]]);
    assert_eq!(a.take_actions(), b.take_actions());
}

#[test]
fn draw_svg_lifts_between_polylines() {
    let mut pen = Pen::new(DeviceModel::Remarkable2);
    pen.draw_svg(&vec![vec![(0, 0), (0, 1)], vec![(5, 5)]]);
    let actions = pen.take_actions();
    assert_eq!(count(&actions, PenAction::Down), 2);
    let mut down = false;
    for a in &actions {
        match a {
            PenAction::Down => {
                assert!(!down);
                down = true;
            }
            PenAction::Up => down = false,
            _ => {}
        }
    }
    assert!(!down);
}
