use rustdancer::{
    ClientMessage, Clock, Home, PollOutcome, ReadOutcome, ServerMessage, WorkerStep,
};

#[test]
fn clock_counts_each_period_once() {
    let mut c = Clock::new(125);
    assert!(!c.tick(100));
    assert!(c.tick(126));
    assert!(!c.tick(126));
    assert!(!c.tick(250));
    assert!(c.tick(251));
}

#[test]
fn clock_catches_up_one_tick_per_call() {
    let mut c = Clock::new(125);
    assert!(c.tick(1000));
    assert!(c.tick(1000));
    assert!(c.tick(1000));
}

#[test]
fn a_full_line_is_decoded_and_forwarded() {
    let step = rustdancer::on_read(ReadOutcome::Line(b"MAP".to_vec()));
    assert_eq!(step, WorkerStep::Forward(ClientMessage::GetMap));
}

#[test]
fn a_timeout_polls_the_mailbox() {
    assert_eq!(rustdancer::on_read(ReadOutcome::TimedOut), WorkerStep::PollMailbox);
}

#[test]
fn a_closed_or_failed_read_notifies_the_simulation() {
    assert_eq!(
        rustdancer::on_read(ReadOutcome::Closed),
        WorkerStep::Shutdown { notify: true }
    );
    assert_eq!(
        rustdancer::on_read(ReadOutcome::Failed),
        WorkerStep::Shutdown { notify: true }
    );
}

#[test]
fn replies_are_framed_with_a_line_feed() {
    assert_eq!(
        rustdancer::on_reply(Some(ServerMessage::ValidMove)),
        WorkerStep::Send(b"OK\n".to_vec())
    );
    assert_eq!(
        rustdancer::on_reply(Some(ServerMessage::Error(b"invalid move".to_vec()))),
        WorkerStep::Send(b"NOK invalid move\n".to_vec())
    );
}

#[test]
fn the_sentinel_or_a_dead_channel_shuts_down_quietly() {
    assert_eq!(
        rustdancer::on_reply(Some(ServerMessage::EndConnection)),
        WorkerStep::Shutdown { notify: false }
    );
    assert_eq!(rustdancer::on_reply(None), WorkerStep::Shutdown { notify: false });
    assert_eq!(
        rustdancer::on_poll(PollOutcome::Disconnected),
        WorkerStep::Shutdown { notify: false }
    );
}

#[test]
fn an_empty_mailbox_keeps_reading() {
    assert_eq!(rustdancer::on_poll(PollOutcome::NoMessage), WorkerStep::KeepReading);
    assert_eq!(
        rustdancer::on_poll(PollOutcome::Delivered(ServerMessage::EndGame)),
        WorkerStep::Send(b"END\n".to_vec())
    );
}

#[test]
fn a_failed_write_notifies_the_simulation() {
    assert_eq!(rustdancer::on_write_result(true), WorkerStep::KeepReading);
    assert_eq!(
        rustdancer::on_write_result(false),
        WorkerStep::Shutdown { notify: true }
    );
}

#[test]
fn chunks_accumulate_until_a_line_feed_ends_one() {
    let mut pending = Vec::new();
    rustdancer::absorb_chunk(&mut pending, &b"MOVE ".to_vec());
    assert_eq!(rustdancer::take_line(&mut pending), None);
    rustdancer::absorb_chunk(&mut pending, &b"UP\r\n".to_vec());
    assert_eq!(rustdancer::take_line(&mut pending), Some(b"MOVE UP".to_vec()));
    assert_eq!(rustdancer::take_line(&mut pending), None);
}

#[test]
fn a_line_ends_without_a_carriage_return_too() {
    let mut pending = b"END\n".to_vec();
    assert_eq!(rustdancer::take_line(&mut pending), Some(b"END".to_vec()));
    assert!(pending.is_empty());
}

#[test]
fn pipelined_commands_split_into_separate_lines() {
    let mut pending = Vec::new();
    rustdancer::absorb_chunk(&mut pending, &b"MAP\nEND\n".to_vec());
    assert_eq!(rustdancer::take_line(&mut pending), Some(b"MAP".to_vec()));
    assert_eq!(rustdancer::take_line(&mut pending), Some(b"END".to_vec()));
    assert_eq!(rustdancer::take_line(&mut pending), None);
}

#[test]
fn a_line_feed_mid_chunk_ends_the_line_there() {
    let mut pending = Vec::new();
    rustdancer::absorb_chunk(&mut pending, &b"AB\nCD".to_vec());
    assert_eq!(rustdancer::take_line(&mut pending), Some(b"AB".to_vec()));
    assert_eq!(rustdancer::take_line(&mut pending), None);
    rustdancer::absorb_chunk(&mut pending, &b"\n".to_vec());
    assert_eq!(rustdancer::take_line(&mut pending), Some(b"CD".to_vec()));
}

#[test]
fn the_greeting_line_is_fixed() {
    assert_eq!(rustdancer::greeting_line(), b"D\xc3\x89BUT\n".to_vec());
}

#[test]
fn seeds_parse_as_decimal() {
    let mut h = Home::new();
    assert!(h.ready());
    h.begin_edit();
    assert!(!h.ready());
    h.push_text(&b"42".to_vec());
    h.confirm();
    assert!(h.ready());
    // The box started out showing "0", so the typed digits follow it.
    assert_eq!(h.seed(), 42);
}

#[test]
fn non_digit_text_is_rejected_whole() {
    let mut h = Home::new();
    h.begin_edit();
    h.push_text(&b"4a2".to_vec());
    h.confirm();
    assert_eq!(h.seed(), 0);
}

#[test]
fn backspace_can_empty_the_box_and_confirm_falls_back_to_zero() {
    let mut h = Home::new();
    h.begin_edit();
    h.backspace();
    h.confirm();
    assert_eq!(h.seed(), 0);
}

#[test]
fn over_large_seeds_fall_back_to_zero() {
    let mut h = Home::new();
    h.begin_edit();
    h.backspace();
    h.push_text(&b"99999999999".to_vec());
    h.confirm();
    assert_eq!(h.seed(), 0);
}

#[test]
fn the_box_shows_the_confirmed_seed_canonically() {
    let mut h = Home::new();
    h.begin_edit();
    h.push_text(&b"7".to_vec());
    h.confirm();
    // "0" then "7" typed reads 07, which confirms to 7.
    assert_eq!(h.seed(), 7);
    h.begin_edit();
    h.push_text(&b"5".to_vec());
    h.confirm();
    assert_eq!(h.seed(), 75);
}
