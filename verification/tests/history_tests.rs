use gimp::canvas::Canvas;
use gimp::history::{History, HistoryState, MAX_HISTORY};

fn marked(value: u8) -> Canvas {
    let mut canvas = Canvas::new(2, 2);
    canvas.set_pixel(0, 0, [value, value, value, 255]);
    canvas
}

#[test]
fn new_history_is_empty() {
    let history = History::new();
    assert_eq!(history.len(), 0);
    assert_eq!(history.current(), 0);
    assert!(!history.can_undo());
    assert!(!history.can_redo());
}

#[test]
fn undo_and_redo_on_an_empty_history_fail() {
    let mut history = History::new();
    let mut canvas = marked(1);
    canvas.dirty = false;
    assert!(!history.undo(&mut canvas));
    assert!(!history.redo(&mut canvas));
    assert!(!canvas.dirty);
    assert_eq!(canvas.get_pixel(0, 0), Some([1, 1, 1, 255]));
}

#[test]
fn first_push_cannot_be_undone() {
    let mut history = History::new();
    history.push(&marked(1));
    assert_eq!(history.len(), 1);
    assert_eq!(history.current(), 0);
    assert!(!history.can_undo());
    assert!(!history.can_redo());
}

#[test]
fn undo_and_redo_walk_the_snapshots() {
    let mut history = History::new();
    for value in 1..=3 {
        history.push(&marked(value));
    }
    let mut canvas = marked(3);
    canvas.dirty = false;
    assert!(history.undo(&mut canvas));
    assert!(canvas.dirty);
    assert_eq!(canvas.get_pixel(0, 0), Some([2, 2, 2, 255]));
    assert!(history.can_redo());
    assert!(history.undo(&mut canvas));
    assert_eq!(canvas.get_pixel(0, 0), Some([1, 1, 1, 255]));
    assert!(!history.undo(&mut canvas));
    assert_eq!(canvas.get_pixel(0, 0), Some([1, 1, 1, 255]));
    assert!(history.redo(&mut canvas));
    assert!(history.redo(&mut canvas));
    assert_eq!(canvas.get_pixel(0, 0), Some([3, 3, 3, 255]));
    assert!(!history.redo(&mut canvas));
    assert!(canvas.check_wf());
}

#[test]
fn history_keeps_the_newest_snapshots() {
    let mut history = History::new();
    let pushes = MAX_HISTORY + 5;
    for value in 0..pushes {
        history.push(&marked(value as u8));
    }
    assert_eq!(MAX_HISTORY, 50);
    assert_eq!(history.len(), MAX_HISTORY);
    assert_eq!(history.current(), MAX_HISTORY - 1);
    let mut canvas = marked(200);
    for step in 1..MAX_HISTORY {
        assert!(history.can_undo());
        assert!(history.undo(&mut canvas));
        let want = (pushes - 1 - step) as u8;
        assert_eq!(canvas.get_pixel(0, 0), Some([want, want, want, 255]));
    }
    // The oldest snapshot kept is that of push 5.
    assert_eq!(canvas.get_pixel(0, 0), Some([5, 5, 5, 255]));
    assert!(!history.can_undo());
    assert!(!history.undo(&mut canvas));
}

#[test]
fn push_after_undo_drops_what_could_be_redone() {
    let mut history = History::new();
    for value in 1..=4 {
        history.push(&marked(value));
    }
    let mut canvas = marked(4);
    assert!(history.undo(&mut canvas));
    assert!(history.undo(&mut canvas));
    assert!(history.can_redo());
    history.push(&marked(9));
    assert!(!history.can_redo());
    assert_eq!(history.len(), 3);
    assert_eq!(history.current(), 2);
    assert!(!history.redo(&mut canvas));
    assert!(history.undo(&mut canvas));
    assert_eq!(canvas.get_pixel(0, 0), Some([2, 2, 2, 255]));
    assert!(history.redo(&mut canvas));
    assert_eq!(canvas.get_pixel(0, 0), Some([9, 9, 9, 255]));
}

#[test]
fn push_after_undo_on_a_full_history() {
    let mut history = History::new();
    for value in 0..MAX_HISTORY {
        history.push(&marked(value as u8));
    }
    let mut canvas = marked(0);
    assert!(history.undo(&mut canvas));
    history.push(&marked(99));
    assert_eq!(history.len(), MAX_HISTORY);
    assert_eq!(history.current(), MAX_HISTORY - 1);
    assert!(!history.can_redo());
}

#[test]
fn snapshots_are_copies() {
    let mut history = History::new();
    let mut canvas = Canvas::new(2, 2);
    canvas.paste_image(2, 2, &vec![50u8; 16]);
    history.push(&canvas);
    canvas.blend_pixel(1, 1, [255, 0, 0, 255]);
    history.push(&canvas);
    canvas.flood_fill(0, 0, [0, 0, 255, 255]);
    assert!(history.undo(&mut canvas));
    assert_eq!(canvas.get_pixel(0, 0), Some([50, 50, 50, 50]));
    assert_eq!(canvas.get_pixel(1, 1), Some([50, 50, 50, 50]));
    assert_eq!(canvas.drawing_layer, vec![0u8; 16]);
    assert!(history.redo(&mut canvas));
    assert_eq!(canvas.get_pixel(1, 1), Some([255, 0, 0, 255]));
    assert_eq!(&canvas.drawing_layer[12..16], &[255, 0, 0, 255]);
}

#[test]
fn restore_copies_both_buffers() {
    let history = History::new();
    let mut canvas = Canvas::new(2, 2);
    let state = HistoryState {
        pixels: vec![7u8; 512],
        drawing_layer: Vec::new(),
        stride: 256,
        width: 2,
        height: 2,
    };
    history.restore(&mut canvas, &state);
    assert!(canvas.dirty);
    assert_eq!(canvas.pixels, vec![7u8; 512]);
    assert!(canvas.check_wf());
}
