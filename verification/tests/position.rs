use bcut::position::{
    Bounded, Copied, CopyStep, Event, Phase, Positioner, ReadOutcome, SeekOutcome, Step,
    TRANSFER_SIZE,
};
use bcut::range::Range;

fn read(n: usize) -> Event {
    Event::Read(ReadOutcome::Got(n))
}

#[test]
fn start_of_zero_needs_no_positioning() {
    let p = Positioner::new(Range { start: 0, count: Some(7) });
    assert_eq!(p.phase(), Phase::Ready);
    assert_eq!(p.step(), Step::Ready { limit: Some(7) });
    let p = Positioner::new(Range { start: 0, count: None });
    assert_eq!(p.step(), Step::Ready { limit: None });
}

#[test]
fn ready_machine_asks_for_nothing_more() {
    let mut p = Positioner::new(Range { start: 0, count: Some(7) });
    for event in [
        Event::Seek(SeekOutcome::Moved),
        Event::Seek(SeekOutcome::Unseekable),
        Event::Seek(SeekOutcome::Failed),
        read(0),
        read(5),
        Event::Read(ReadOutcome::Interrupted),
        Event::Read(ReadOutcome::Failed),
    ] {
        p.advance(event);
        assert_eq!(p.step(), Step::Ready { limit: Some(7) });
    }
}

#[test]
fn seek_is_tried_first_and_ends_the_work_where_it_moves() {
    let mut p = Positioner::new(Range { start: 4096, count: Some(10) });
    assert_eq!(p.phase(), Phase::Seeking);
    assert_eq!(p.step(), Step::Seek { by: 4096 });
    p.advance(Event::Seek(SeekOutcome::Moved));
    assert_eq!(p.step(), Step::Ready { limit: Some(10) });
}

#[test]
fn largest_start_is_a_seek_by_the_largest_offset() {
    let p = Positioner::new(Range { start: i64::MAX as u64, count: None });
    assert_eq!(p.step(), Step::Seek { by: i64::MAX });
}

#[test]
fn failed_seek_is_final() {
    let mut p = Positioner::new(Range { start: 1, count: None });
    p.advance(Event::Seek(SeekOutcome::Failed));
    assert_eq!(p.phase(), Phase::Failed);
    assert_eq!(p.step(), Step::Fail);
    p.advance(Event::Seek(SeekOutcome::Moved));
    assert_eq!(p.step(), Step::Fail);
    p.advance(read(1));
    assert_eq!(p.step(), Step::Fail);
}

#[test]
fn unseekable_input_is_skipped_by_reading_exactly_start_bytes() {
    let mut p = Positioner::new(Range { start: 10, count: Some(3) });
    p.advance(Event::Seek(SeekOutcome::Unseekable));
    assert_eq!(p.phase(), Phase::Skipping);
    assert_eq!(p.step(), Step::Discard { at_most: 10 });
    p.advance(read(4));
    assert_eq!(p.step(), Step::Discard { at_most: 6 });
    p.advance(Event::Read(ReadOutcome::Interrupted));
    assert_eq!(p.step(), Step::Discard { at_most: 6 });
    p.advance(read(5));
    assert_eq!(p.step(), Step::Discard { at_most: 1 });
    p.advance(read(1));
    assert_eq!(p.phase(), Phase::Ready);
    assert_eq!(p.step(), Step::Ready { limit: Some(3) });
}

#[test]
fn long_skip_reads_one_buffer_at_a_time() {
    let start = 2 * TRANSFER_SIZE as u64 + 5;
    let mut p = Positioner::new(Range { start, count: None });
    p.advance(Event::Seek(SeekOutcome::Unseekable));
    assert_eq!(p.step(), Step::Discard { at_most: TRANSFER_SIZE });
    p.advance(read(TRANSFER_SIZE));
    assert_eq!(p.step(), Step::Discard { at_most: TRANSFER_SIZE });
    p.advance(read(TRANSFER_SIZE));
    assert_eq!(p.step(), Step::Discard { at_most: 5 });
    p.advance(read(5));
    assert_eq!(p.step(), Step::Ready { limit: None });
}

#[test]
fn input_that_ends_during_the_skip_is_ready_and_empty() {
    let mut p = Positioner::new(Range { start: 100, count: Some(1) });
    p.advance(Event::Seek(SeekOutcome::Unseekable));
    p.advance(read(40));
    p.advance(read(0));
    assert_eq!(p.step(), Step::Ready { limit: Some(1) });
}

#[test]
fn failures_during_the_skip_are_final() {
    let mut p = Positioner::new(Range { start: 100, count: None });
    p.advance(Event::Seek(SeekOutcome::Unseekable));
    p.advance(Event::Read(ReadOutcome::Failed));
    assert_eq!(p.step(), Step::Fail);

    // More bytes than were asked for: the report cannot be true.
    let mut p = Positioner::new(Range { start: 100, count: None });
    p.advance(Event::Seek(SeekOutcome::Unseekable));
    p.advance(read(101));
    assert_eq!(p.step(), Step::Fail);

    // A report that does not answer the step asked for.
    let mut p = Positioner::new(Range { start: 100, count: None });
    p.advance(read(1));
    assert_eq!(p.step(), Step::Fail);
    let mut p = Positioner::new(Range { start: 100, count: None });
    p.advance(Event::Seek(SeekOutcome::Unseekable));
    p.advance(Event::Seek(SeekOutcome::Moved));
    assert_eq!(p.step(), Step::Fail);
}

#[test]
fn bounded_source_yields_at_most_its_limit() {
    let mut b = Bounded::new(Some(10));
    assert_eq!(b.allowance(4), 4);
    b.consume(4);
    assert_eq!(b.allowance(100), 6);
    b.consume(6);
    assert_eq!(b.allowance(100), 0);
    assert_eq!(b.allowance(0), 0);
    b.consume(0);
    assert_eq!(b.allowance(1), 0);

    let b = Bounded::new(Some(0));
    assert_eq!(b.allowance(8192), 0);
    let b = Bounded::new(Some(u64::MAX));
    assert_eq!(b.allowance(usize::MAX), usize::MAX);
}

#[test]
fn unbounded_source_grants_all_that_is_wanted() {
    let mut b = Bounded::new(None);
    assert_eq!(b.allowance(8192), 8192);
    b.consume(8192);
    assert_eq!(b.allowance(usize::MAX), usize::MAX);
    b.consume(usize::MAX);
    assert_eq!(b.allowance(1), 1);
}

#[test]
fn copy_writes_what_came_and_retries_what_was_interrupted() {
    let mut c = Copied::new();
    assert_eq!(c.total(), 0);
    assert_eq!(c.after_read(ReadOutcome::Got(5)), CopyStep::Write { len: 5 });
    assert_eq!(c.total(), 5);
    assert_eq!(c.after_read(ReadOutcome::Interrupted), CopyStep::Retry);
    assert_eq!(c.total(), 5);
    assert_eq!(c.after_read(ReadOutcome::Got(7)), CopyStep::Write { len: 7 });
    assert_eq!(c.total(), 12);
    assert_eq!(c.after_read(ReadOutcome::Got(0)), CopyStep::Finish);
    assert_eq!(c.total(), 12);
    assert_eq!(c.after_read(ReadOutcome::Failed), CopyStep::Fail);
    assert_eq!(c.total(), 12);
}
