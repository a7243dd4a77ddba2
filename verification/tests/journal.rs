use revision::store::journal::{
    depth, next_gesture, next_redo, next_undo, redo_payload_seq, undo_payload_seq, Entry,
    KIND_COMMAND, KIND_REDO, KIND_UNDO,
};

/// A journal kept in memory, driven the way a project drives its database:
/// commands append command rows, undo and redo append markers.
struct History {
    entry: Vec<Entry>,
}

impl History {
    fn new() -> History {
        History { entry: Vec::new() }
    }

    fn push(&mut self, gesture: i64, kind: &str, target: Option<i64>) {
        let seq = self.entry.len() as i64 + 1;
        self.entry.push(Entry {
            seq,
            gesture,
            kind: kind.to_string(),
            target_gesture: target,
        });
    }

    /// One gesture holding `commands` command rows; returns its number.
    fn gesture(&mut self, commands: usize) -> i64 {
        let g = next_gesture(&self.entry);
        for _ in 0..commands {
            self.push(g, KIND_COMMAND, None);
        }
        g
    }

    fn undo(&mut self) -> bool {
        match next_undo(&self.entry) {
            Some(target) => {
                let g = next_gesture(&self.entry);
                self.push(g, KIND_UNDO, Some(target));
                true
            }
            None => false,
        }
    }

    fn redo(&mut self) -> bool {
        match next_redo(&self.entry) {
            Some(target) => {
                let g = next_gesture(&self.entry);
                self.push(g, KIND_REDO, Some(target));
                true
            }
            None => false,
        }
    }
}

#[test]
fn the_first_gesture_is_number_one() {
    let history = History::new();
    assert_eq!(next_gesture(&history.entry), 1);
}

#[test]
fn gesture_numbers_follow_the_highest() {
    let mut history = History::new();
    history.push(7, KIND_COMMAND, None);
    history.push(3, KIND_COMMAND, None);
    assert_eq!(next_gesture(&history.entry), 8);
}

#[test]
fn undo_reports_when_there_is_nothing_left() {
    let mut history = History::new();
    history.gesture(3); // genesis: one gesture of several commands
    assert!(history.undo());
    assert!(!history.undo());
}

#[test]
fn undo_takes_the_most_recent_gesture_first() {
    let mut history = History::new();
    let first = history.gesture(1);
    let second = history.gesture(2);
    assert_eq!(next_undo(&history.entry), Some(second));
    assert!(history.undo());
    assert_eq!(next_undo(&history.entry), Some(first));
}

#[test]
fn undo_and_redo_round_trip() {
    let mut history = History::new();
    let first = history.gesture(1);
    let second = history.gesture(1);
    assert!(history.undo());
    assert!(history.undo());
    assert_eq!(depth(&history.entry), (0, 2));
    assert_eq!(next_redo(&history.entry), Some(first));
    assert!(history.redo());
    assert_eq!(next_redo(&history.entry), Some(second));
    assert!(history.redo());
    assert_eq!(next_redo(&history.entry), None);
    assert_eq!(depth(&history.entry), (2, 0));
    assert_eq!(next_undo(&history.entry), Some(second));
}

#[test]
fn a_new_command_closes_the_redo_stack() {
    let mut history = History::new();
    history.gesture(1);
    assert!(history.undo());
    assert_eq!(depth(&history.entry).1, 1);
    history.gesture(1);
    assert!(!history.redo(), "redo should be closed");
}

#[test]
fn a_closed_redo_stack_stays_closed_after_a_later_undo() {
    // Redo undoes the last undo, and nothing else: after a new command, a later
    // undo must not let redo reach back past it to the stale gesture.
    let mut history = History::new();
    let first = history.gesture(1);
    assert!(history.undo()); // first is undone
    let second = history.gesture(1); // stack invalidated
    assert!(history.undo()); // second undone; a marker is last again
    assert_eq!(next_redo(&history.entry), Some(second));
    assert!(history.redo());
    assert_ne!(next_redo(&history.entry), Some(first));
    assert!(!history.redo(), "redo should be spent");
    // The superseded undone gesture stays undone, but redo can no longer
    // reach it, so it is not available to redo.
    assert_eq!(depth(&history.entry), (1, 0));
}

#[test]
fn a_gesture_can_be_undone_and_redone_any_number_of_times() {
    let mut history = History::new();
    let g = history.gesture(2);
    for _ in 0..5 {
        assert!(history.undo());
        assert_eq!(next_undo(&history.entry), None);
        assert!(history.redo());
        assert_eq!(next_undo(&history.entry), Some(g));
    }
    assert_eq!(depth(&history.entry), (1, 0));
}

#[test]
fn depth_counts_gestures_not_rows() {
    let mut history = History::new();
    history.gesture(4);
    history.gesture(2);
    assert_eq!(depth(&history.entry), (2, 0));
}

#[test]
fn payloads_run_forward_to_redo_and_backward_to_undo() {
    let mut history = History::new();
    history.gesture(1); // seq 1
    let g = history.gesture(3); // seqs 2, 3, 4
    history.gesture(1); // seq 5
    assert_eq!(redo_payload_seq(&history.entry, g), vec![2, 3, 4]);
    assert_eq!(undo_payload_seq(&history.entry, g), vec![4, 3, 2]);
    assert!(undo_payload_seq(&history.entry, 99).is_empty());
}

#[test]
fn markers_do_not_carry_payloads() {
    let mut history = History::new();
    let g = history.gesture(1);
    assert!(history.undo());
    assert!(history.redo());
    assert_eq!(redo_payload_seq(&history.entry, g), vec![1]);
    let marker = history.entry[1].gesture;
    assert!(redo_payload_seq(&history.entry, marker).is_empty());
}

#[test]
fn a_redo_marker_without_an_undo_pops_nothing() {
    let mut history = History::new();
    history.gesture(1);
    history.push(2, KIND_REDO, Some(1));
    assert_eq!(next_redo(&history.entry), None);
}

#[test]
fn a_new_command_leaves_nothing_available_to_redo() {
    let mut history = History::new();
    history.gesture(1);
    assert!(history.undo());
    assert_eq!(depth(&history.entry), (0, 1));
    history.gesture(1);
    assert!(!history.redo());
    assert_eq!(depth(&history.entry), (1, 0));
}

#[test]
fn depth_counts_each_gesture_on_the_redo_stack_once() {
    let mut history = History::new();
    history.gesture(1);
    history.gesture(1);
    assert!(history.undo());
    assert!(history.undo());
    assert_eq!(depth(&history.entry), (0, 2));
    assert!(history.redo());
    assert_eq!(depth(&history.entry), (1, 1));
    // A stack naming one gesture twice counts it once.
    history.push(20, KIND_UNDO, Some(2));
    assert_eq!(depth(&history.entry), (1, 1));
}
