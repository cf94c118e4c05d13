//! The journal of a client: one line for each change that the state file does not hold yet.
use vstd::prelude::*;

use crate::reconcile::SeenRow;

verus! {

/// The byte that ends a line.
pub const LINE_END: u8 = 10;

/// What stands after the last complete line: a record that was cut off, or nothing.
pub open spec fn torn(journal: Seq<u8>) -> Seq<u8>
    decreases journal.len(),
{
    if journal.len() == 0 || journal.last() == LINE_END {
        Seq::empty()
    } else {
        torn(journal.drop_last()).push(journal.last())
    }
}

/// The complete lines of a journal, without their ends.
pub open spec fn lines(journal: Seq<u8>) -> Seq<Seq<u8>>
    decreases journal.len(),
{
    if journal.len() == 0 {
        Seq::empty()
    } else if journal.last() == LINE_END {
        lines(journal.drop_last()).push(torn(journal.drop_last()))
    } else {
        lines(journal.drop_last())
    }
}

/// The complete lines of a journal. A record that was cut off is left out.
pub fn complete_lines(journal: &[u8]) -> (found: Vec<Vec<u8>>)
    ensures
        found@.map_values(|line: Vec<u8>| line@) == lines(journal@),
{
    let ghost see = |line: Vec<u8>| line@;
    let mut found: Vec<Vec<u8>> = Vec::new();
    let mut line: Vec<u8> = Vec::new();
    let mut i: usize = 0;
    assert(journal@.take(0) =~= Seq::<u8>::empty());
    assert(found@.map_values(see) =~= lines(journal@.take(0)));
    while i < journal.len()
        invariant
            i <= journal@.len(),
            see == (|line: Vec<u8>| line@),
            line@ == torn(journal@.take(i as int)),
            found@.map_values(see) == lines(journal@.take(i as int)),
        decreases journal@.len() - i,
    {
        let ghost next = journal@.take(i + 1);
        let ghost before = found@;
        assert(next.drop_last() =~= journal@.take(i as int));
        if journal[i] == LINE_END {
            let mut done: Vec<u8> = Vec::new();
            std::mem::swap(&mut done, &mut line);
            found.push(done);
            assert(found@.map_values(see) =~= before.map_values(see).push(done@));
        } else {
            line.push(journal[i]);
        }
        i += 1;
    }
    assert(journal@.take(i as int) =~= journal@);
    found
}

/// How many records stand before the first that cannot be read.
pub open spec fn readable(records: Seq<Option<SeenRow>>) -> nat
    decreases records.len(),
{
    if records.len() == 0 || records[0] is None {
        0
    } else {
        1 + readable(records.skip(1))
    }
}

/// The records before the first that cannot be read: it ends the journal.
pub fn intact(records: Vec<Option<SeenRow>>) -> (rows: Vec<SeenRow>)
    ensures
        rows@.len() == readable(records@),
        forall|i: int| 0 <= i < rows@.len() ==> records@[i] == Some(#[trigger] rows@[i]),
        readable(records@) <= records@.len(),
        readable(records@) < records@.len() ==> records@[readable(records@) as int] is None,
{
    let ghost all = records@;
    let mut rows: Vec<SeenRow> = Vec::new();
    let mut rest = records;
    assert(all.skip(0) =~= all);
    while rest.len() > 0
        invariant_except_break
            rest@ == all.skip(rows@.len() as int),
            rows@.len() + readable(rest@) == readable(all),
        invariant
            rows@.len() <= all.len(),
            forall|i: int| 0 <= i < rows@.len() ==> all[i] == Some(#[trigger] rows@[i]),
        ensures
            rows@.len() == readable(all),
            rows@.len() < all.len() ==> all[rows@.len() as int] is None,
        decreases rest@.len(),
    {
        let ghost n = rows@.len() as int;
        let ghost before = rest@;
        let first = rest.remove(0);
        assert(before[0] == all[n]);
        assert(rest@ =~= before.skip(1));
        match first {
            Some(row) => {
                rows.push(row);
                assert(rest@ =~= all.skip(n + 1));
            },
            None => {
                break;
            },
        }
    }
    rows
}

/// A record that was cut off changes nothing of what is read.
pub proof fn law_torn_record_is_ignored(journal: Seq<u8>, tail: Seq<u8>)
    requires
        forall|i: int| 0 <= i < tail.len() ==> #[trigger] tail[i] != LINE_END,
    ensures
        lines(journal + tail) == lines(journal),
    decreases tail.len(),
{
    if tail.len() == 0 {
        assert(journal + tail =~= journal);
    } else {
        let front = tail.drop_last();
        assert forall|i: int| 0 <= i < front.len() implies #[trigger] front[i] != LINE_END by {
            assert(front[i] == tail[i]);
        }
        assert((journal + tail).drop_last() =~= journal + front);
        assert((journal + tail).last() == tail[tail.len() - 1]);
        law_torn_record_is_ignored(journal, front);
    }
}

proof fn lemma_torn_grows(journal: Seq<u8>, tail: Seq<u8>)
    requires
        forall|i: int| 0 <= i < tail.len() ==> #[trigger] tail[i] != LINE_END,
    ensures
        torn(journal + tail) == torn(journal) + tail,
    decreases tail.len(),
{
    if tail.len() == 0 {
        assert(journal + tail =~= journal);
        assert(torn(journal) + tail =~= torn(journal));
    } else {
        let front = tail.drop_last();
        assert forall|i: int| 0 <= i < front.len() implies #[trigger] front[i] != LINE_END by {
            assert(front[i] == tail[i]);
        }
        assert((journal + tail).drop_last() =~= journal + front);
        assert((journal + tail).last() == tail[tail.len() - 1]);
        lemma_torn_grows(journal, front);
        assert(torn(journal) + tail =~= (torn(journal) + front).push(tail.last()));
    }
}

/// A record that is written to the end of a whole journal is read back after those before.
pub proof fn law_written_record_is_read(journal: Seq<u8>, record: Seq<u8>)
    requires
        torn(journal).len() == 0,
        forall|i: int| 0 <= i < record.len() ==> #[trigger] record[i] != LINE_END,
    ensures
        lines(journal + record.push(LINE_END)) == lines(journal).push(record),
        torn(journal + record.push(LINE_END)).len() == 0,
{
    let whole = journal + record.push(LINE_END);
    assert(whole.drop_last() =~= journal + record);
    assert(whole.last() == LINE_END);
    law_torn_record_is_ignored(journal, record);
    lemma_torn_grows(journal, record);
    assert(torn(journal) + record =~= record);
}

/// All records up to the first one that cannot be read are read, and none behind it.
pub proof fn law_records_are_read_in_order(records: Seq<Option<SeenRow>>, i: int)
    ensures
        readable(records) <= records.len(),
        0 <= i < readable(records) ==> records[i] is Some,
        readable(records) < records.len() ==> records[readable(records) as int] is None,
    decreases records.len(),
{
    if records.len() > 0 && records[0] is Some {
        let rest = records.skip(1);
        law_records_are_read_in_order(rest, i - 1);
        if i > 0 && i < readable(records) {
            assert(rest[i - 1] == records[i]);
        }
        if readable(rest) < rest.len() {
            assert(rest[readable(rest) as int] == records[readable(records) as int]);
        }
    }
}

/// Neither a line nor what is torn holds the end of a line.
pub proof fn law_lines_hold_no_line_ends(journal: Seq<u8>, i: int, k: int)
    ensures
        0 <= k < torn(journal).len() ==> torn(journal)[k] != LINE_END,
        0 <= i < lines(journal).len() && 0 <= k < lines(journal)[i].len() ==> lines(journal)[i][k]
            != LINE_END,
    decreases journal.len(),
{
    if journal.len() > 0 {
        let before = journal.drop_last();
        law_lines_hold_no_line_ends(before, i, k);
        if journal.last() != LINE_END && 0 <= k < torn(before).len() {
            assert(torn(journal)[k] == torn(before)[k]);
        }
    }
}

} // verus!
