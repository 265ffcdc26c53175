use branch_review::branch::Branch;
use branch_review::collect::get_branches;
use branch_review::branch::RawBranch;
use branch_review::session::{
    dispatch_key, get_action, repl, to_ctrl_char, Action, KeyResult, Msg, Next, Session,
};

fn branch(name: &str, time: i64, handle: usize) -> Branch {
    Branch {
        name: name.to_string(),
        commit_id: "aaaaaaaaaaaaaaaaaaaaaaaaaaaaaaaaaaaaaaaa".to_string(),
        time,
        handle,
    }
}

#[test]
fn ctrl_codes_follow_the_terminal_convention() {
    assert_eq!(to_ctrl_char(b'c'), 0x03);
    assert_eq!(to_ctrl_char(b'd'), 0x04);
}

#[test]
fn dispatch_decides_keep_delete_quit() {
    assert_eq!(dispatch_key(b'k'), KeyResult::Decided(Action::Keep));
    assert_eq!(dispatch_key(b'd'), KeyResult::Decided(Action::Delete));
    assert_eq!(dispatch_key(b'q'), KeyResult::Decided(Action::Quit));
    assert_eq!(dispatch_key(0x03), KeyResult::Decided(Action::Quit));
    assert_eq!(dispatch_key(0x04), KeyResult::Decided(Action::Quit));
}

#[test]
fn dispatch_reprompts_on_help_return_and_junk() {
    assert_eq!(dispatch_key(b'?'), KeyResult::Stay(Msg::Help));
    assert_eq!(dispatch_key(b'\r'), KeyResult::Stay(Msg::Reminder));
    assert_eq!(dispatch_key(b'x'), KeyResult::Stay(Msg::Invalid(b'x')));
    assert_eq!(dispatch_key(0x00), KeyResult::Stay(Msg::Invalid(0x00)));
    assert_eq!(dispatch_key(0xff), KeyResult::Stay(Msg::Invalid(0xff)));
}

#[test]
fn dispatch_answers_every_byte() {
    for key in 0..=255u8 {
        match dispatch_key(key) {
            KeyResult::Decided(_) => {
                assert!(key == b'k' || key == b'd' || key == b'q' || key == 0x03 || key == 0x04);
            }
            KeyResult::Stay(_) => {
                assert!(key != b'k' && key != b'd' && key != b'q' && key != 0x03 && key != 0x04);
            }
        }
    }
}

#[test]
fn help_then_keep_prints_help_once_and_deletes_nothing() {
    let list = vec![branch("only", 1, 0)];
    let input = vec![b'?', b'k'];
    let t = repl(list, &input);
    assert_eq!(t.msgs, vec![Msg::Help, Msg::Keeping]);
    assert_eq!(t.decided, vec![Action::Keep]);
    assert!(t.deletions.is_empty());
    assert_eq!(t.used, 2);
}

#[test]
fn delete_then_quit_spares_the_second_branch() {
    let list = vec![branch("first", 1, 4), branch("second", 2, 7)];
    let input = vec![b'd', b'q'];
    let t = repl(list, &input);
    assert_eq!(t.decided, vec![Action::Delete, Action::Quit]);
    assert_eq!(t.deletions, vec![4]);
    assert_eq!(t.msgs, vec![Msg::Deleting, Msg::Quitting]);
    assert_eq!(t.used, 2);
}

#[test]
fn empty_list_prints_the_notice_and_prompts_nobody() {
    let listing = vec![
        RawBranch {
            name: "master".to_string(),
            commit_id: "aaaaaaaaaaaaaaaaaaaaaaaaaaaaaaaaaaaaaaaa".to_string(),
            seconds: 1,
            offset_minutes: 0,
        },
        RawBranch {
            name: "main".to_string(),
            commit_id: "bbbbbbbbbbbbbbbbbbbbbbbbbbbbbbbbbbbbbbbb".to_string(),
            seconds: 2,
            offset_minutes: 0,
        },
    ];
    let head = "main".to_string();
    let list = get_branches(listing, &head);
    let input = vec![b'd', b'd', b'd'];
    let t = repl(list, &input);
    assert_eq!(t.msgs, vec![Msg::Notice]);
    assert!(t.decided.is_empty());
    assert!(t.deletions.is_empty());
    assert_eq!(t.used, 0);
}

#[test]
fn ctrl_c_at_the_first_prompt_quits_with_no_deletions() {
    let list = vec![branch("a", 1, 0), branch("b", 2, 1)];
    let input = vec![0x03];
    let t = repl(list, &input);
    assert_eq!(t.decided, vec![Action::Quit]);
    assert!(t.deletions.is_empty());
    assert_eq!(t.msgs, vec![Msg::Quitting]);
    assert_eq!(t.used, 1);
}

#[test]
fn end_of_input_quits_the_session() {
    let list = vec![branch("a", 1, 0), branch("b", 2, 1)];
    let input: Vec<u8> = Vec::new();
    let t = repl(list, &input);
    assert_eq!(t.decided, vec![Action::Quit]);
    assert!(t.deletions.is_empty());
    assert_eq!(t.msgs, vec![Msg::Quitting]);
    assert_eq!(t.used, 0);
}

#[test]
fn return_and_junk_reprompt_until_a_choice_falls() {
    let list = vec![branch("only", 1, 0)];
    let input = vec![b'\r', b'x', b'k'];
    let t = repl(list, &input);
    assert_eq!(t.msgs, vec![Msg::Reminder, Msg::Invalid(b'x'), Msg::Keeping]);
    assert_eq!(t.decided, vec![Action::Keep]);
    assert_eq!(t.used, 3);
}

#[test]
fn quitting_first_leaves_the_rest_unvisited() {
    let list = vec![branch("a", 1, 0), branch("b", 2, 1), branch("c", 3, 2)];
    let input = vec![b'q', b'd', b'd'];
    let t = repl(list, &input);
    assert_eq!(t.decided, vec![Action::Quit]);
    assert!(t.deletions.is_empty());
    assert_eq!(t.used, 1);
}

#[test]
fn each_deletion_names_its_own_branch_once() {
    let list = vec![branch("a", 1, 10), branch("b", 2, 11), branch("c", 3, 12)];
    let input = vec![b'd', b'k', b'd'];
    let t = repl(list, &input);
    assert_eq!(t.decided, vec![Action::Delete, Action::Keep, Action::Delete]);
    assert_eq!(t.deletions, vec![10, 12]);
    assert_eq!(t.used, 3);
}

#[test]
fn get_action_reads_until_a_decision() {
    let input = vec![b'?', b'd', b'k'];
    let (action, after, msgs) = get_action(&input, 0);
    assert_eq!(action, Action::Delete);
    assert_eq!(after, 2);
    assert_eq!(msgs, vec![Msg::Help, Msg::Deleting]);
    let (action2, after2, msgs2) = get_action(&input, 2);
    assert_eq!(action2, Action::Keep);
    assert_eq!(after2, 3);
    assert_eq!(msgs2, vec![Msg::Keeping]);
}

#[test]
fn session_steps_one_event_at_a_time() {
    let mut s = Session::new(vec![branch("a", 1, 0), branch("b", 2, 1)]);
    assert_eq!(s.branch_count(), 2);
    let r = s.start();
    assert_eq!(r.next, Next::AwaitKey);
    assert!(r.msgs.is_empty());
    assert_eq!(r.decided, None);
    assert_eq!(s.current().name, "a");

    let r = s.on_key(b'?');
    assert_eq!(r.msgs, vec![Msg::Help]);
    assert_eq!(r.next, Next::AwaitKey);
    assert_eq!(s.current().name, "a");

    let r = s.on_key(b'd');
    assert_eq!(r.msgs, vec![Msg::Deleting]);
    assert_eq!(r.decided, Some(Action::Delete));
    assert_eq!(r.delete, Some(0));
    assert_eq!(r.next, Next::AwaitKey);
    assert_eq!(s.current().name, "b");

    let r = s.on_key(b'k');
    assert_eq!(r.msgs, vec![Msg::Keeping]);
    assert_eq!(r.delete, None);
    assert_eq!(r.next, Next::Done);
    assert!(s.is_done());
}

#[test]
fn session_start_on_empty_list_is_the_notice() {
    let mut s = Session::new(Vec::new());
    let r = s.start();
    assert_eq!(r.msgs, vec![Msg::Notice]);
    assert_eq!(r.next, Next::Done);
    assert!(s.is_done());
}

#[test]
fn session_end_of_input_quits() {
    let mut s = Session::new(vec![branch("a", 1, 0)]);
    let r = s.start();
    assert_eq!(r.next, Next::AwaitKey);
    let r = s.end_of_input();
    assert_eq!(r.msgs, vec![Msg::Quitting]);
    assert_eq!(r.next, Next::Done);
    assert!(s.is_done());
}
