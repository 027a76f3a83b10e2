//! Streams of finished rows, and what the frame is after one was taken in.
//!
//! Rows come back from the workers in no particular order. The laws here say
//! that this order does not show in the frame, and that a frame which has
//! taken in every row number once holds every row at its place.

use crate::frame::{lemma_ranges, row_end, row_start, with_row, FrameState};
use vstd::prelude::*;

verus! {

/// A finished row as it arrives at the assembler: its bytes and its number.
pub struct Arrival {
    pub row: Seq<u8>,
    pub row_number: nat,
}

impl Arrival {
    /// Whether position `p` of the frame lies in the range of this row.
    pub open spec fn covers(self, p: int) -> bool {
        row_start(self.row_number as int, self.row.len() as int) <= p < row_end(
            self.row_number as int,
            self.row.len() as int,
        )
    }
}

/// The frame after the rows of `arrivals` were written into `frame` one after
/// the other, the first arrival first.
pub open spec fn assemble(frame: Seq<u8>, arrivals: Seq<Arrival>) -> Seq<u8>
    decreases arrivals.len(),
{
    if arrivals.len() == 0 {
        frame
    } else {
        with_row(
            assemble(frame, arrivals.drop_last()),
            arrivals.last().row,
            arrivals.last().row_number as int,
        )
    }
}

/// Every arrival is a row of `row_len` bytes with a number below `height`.
pub open spec fn arrivals_fit(arrivals: Seq<Arrival>, row_len: nat, height: nat) -> bool {
    forall|k: int|
        0 <= k < arrivals.len() ==> (#[trigger] arrivals[k]).row.len() == row_len
            && arrivals[k].row_number < height
}

/// Whether a row with number `row_number` is among the arrivals.
pub open spec fn has_arrived(arrivals: Seq<Arrival>, row_number: nat) -> bool {
    exists|k: int| 0 <= k < arrivals.len() && (#[trigger] arrivals[k]).row_number == row_number
}

/// No row number arrives twice.
pub open spec fn rows_distinct(arrivals: Seq<Arrival>) -> bool {
    forall|j: int, k: int|
        0 <= j < k < arrivals.len() ==> (#[trigger] arrivals[j]).row_number != (
        #[trigger] arrivals[k]).row_number
}

impl FrameState {
    /// Every row of `arrivals` is one that the assembler takes in: it has the
    /// length of a row of this image and a number below the height.
    pub open spec fn takes(self, arrivals: Seq<Arrival>) -> bool {
        arrivals_fit(arrivals, self.row_len(), self.height)
    }

    /// The state after the rows of `arrivals` were taken in one after the
    /// other, the first arrival first.
    pub open spec fn after(self, arrivals: Seq<Arrival>) -> FrameState
        decreases arrivals.len(),
    {
        if arrivals.len() == 0 {
            self
        } else {
            self.after(arrivals.drop_last()).accepted(
                arrivals.last().row,
                arrivals.last().row_number,
            )
        }
    }
}

/// Taking in a stream of rows assembles them into the frame and counts them.
proof fn lemma_after(state: FrameState, arrivals: Seq<Arrival>)
    ensures
        state.after(arrivals) == (FrameState {
            bytes: assemble(state.bytes, arrivals),
            completed: state.completed + arrivals.len(),
            ..state
        }),
        assemble(state.bytes, arrivals).len() == state.bytes.len(),
    decreases arrivals.len(),
{
    if arrivals.len() > 0 {
        lemma_after(state, arrivals.drop_last());
    }
}

/// A stream in which no row number comes twice has as many arrivals as it has
/// different ones.
proof fn lemma_distinct_rows_counted(arrivals: Seq<Arrival>)
    requires
        rows_distinct(arrivals),
    ensures
        arrivals.to_set().finite(),
        arrivals.to_set().len() == arrivals.len(),
{
    assert(arrivals.no_duplicates()) by {
        assert forall|j: int, k: int|
            0 <= j < arrivals.len() && 0 <= k < arrivals.len() && j != k implies arrivals[j]
            != arrivals[k] by {
            if j < k {
                assert(arrivals[j].row_number != arrivals[k].row_number);
            } else {
                assert(arrivals[k].row_number != arrivals[j].row_number);
            }
        }
    }
    arrivals.unique_seq_to_set();
    vstd::seq_lib::seq_to_set_is_finite(arrivals);
}

/// What one byte of an assembled frame is: the byte of the arrival whose row
/// covers it, or the byte the frame had at first where no arrival covers it.
proof fn lemma_assembled_byte(
    frame: Seq<u8>,
    arrivals: Seq<Arrival>,
    row_len: nat,
    height: nat,
    p: int,
)
    requires
        frame.len() == row_len * height,
        arrivals_fit(arrivals, row_len, height),
        rows_distinct(arrivals),
        0 <= p < frame.len(),
    ensures
        assemble(frame, arrivals).len() == frame.len(),
        forall|k: int|
            0 <= k < arrivals.len() && (#[trigger] arrivals[k]).covers(p) ==> assemble(
                frame,
                arrivals,
            )[p] == arrivals[k].row[p - row_start(arrivals[k].row_number as int, row_len as int)],
        (forall|k: int| 0 <= k < arrivals.len() ==> !(#[trigger] arrivals[k]).covers(p))
            ==> assemble(frame, arrivals)[p] == frame[p],
    decreases arrivals.len(),
{
    if arrivals.len() > 0 {
        let earlier = arrivals.drop_last();
        let last = arrivals.last();
        lemma_assembled_byte(frame, earlier, row_len, height, p);
        assert forall|k: int| 0 <= k < arrivals.len() && (#[trigger] arrivals[k]).covers(
            p,
        ) implies assemble(frame, arrivals)[p] == arrivals[k].row[p - row_start(
            arrivals[k].row_number as int,
            row_len as int,
        )] by {
            if k < arrivals.len() - 1 {
                assert(earlier[k] == arrivals[k]);
                let m = arrivals[k].row_number as int;
                let n = last.row_number as int;
                lemma_ranges(m, n, row_len as int, height as int);
                lemma_ranges(n, m, row_len as int, height as int);
            }
        }
        if forall|k: int| 0 <= k < arrivals.len() ==> !(#[trigger] arrivals[k]).covers(p) {
            assert(!last.covers(p));
            assert forall|k: int| 0 <= k < earlier.len() implies !(#[trigger] earlier[k]).covers(
                p,
            ) by {
                assert(earlier[k] == arrivals[k]);
            }
        }
    }
}

/// The frame does not depend on the order in which rows arrive: two streams
/// that bring the same rows, each row number at most once, leave the
/// assembler in the same state, with the same bytes at the same places.
pub proof fn lemma_assembly_ignores_arrival_order(
    state: FrameState,
    first: Seq<Arrival>,
    second: Seq<Arrival>,
)
    requires
        state.inv(),
        state.takes(first),
        state.takes(second),
        rows_distinct(first),
        rows_distinct(second),
        forall|a: Arrival| first.contains(a) <==> second.contains(a),
    ensures
        first.len() == second.len(),
        state.after(first) == state.after(second),
{
    let frame = state.bytes;
    let row_len = state.row_len();
    let height = state.height;
    lemma_after(state, first);
    lemma_after(state, second);
    let one = assemble(frame, first);
    let other = assemble(frame, second);
    assert forall|p: int| 0 <= p < frame.len() implies one[p] == other[p] by {
        lemma_assembled_byte(frame, first, row_len, height, p);
        lemma_assembled_byte(frame, second, row_len, height, p);
        if exists|k: int| 0 <= k < first.len() && (#[trigger] first[k]).covers(p) {
            let k = choose|k: int| 0 <= k < first.len() && (#[trigger] first[k]).covers(p);
            assert(first.contains(first[k]));
            assert(second.contains(first[k]));
            let j = choose|j: int| 0 <= j < second.len() && second[j] == first[k];
            assert(second[j].covers(p));
        } else if exists|j: int| 0 <= j < second.len() && (#[trigger] second[j]).covers(p) {
            let j = choose|j: int| 0 <= j < second.len() && (#[trigger] second[j]).covers(p);
            assert(second.contains(second[j]));
            assert(first.contains(second[j]));
            let k = choose|k: int| 0 <= k < first.len() && first[k] == second[j];
            assert(first[k].covers(p));
        }
    }
    assert(one =~= other);
    lemma_distinct_rows_counted(first);
    lemma_distinct_rows_counted(second);
    assert(first.to_set() =~= second.to_set());
}

/// When a fresh assembler has taken in as many rows as the image has, each
/// row number once, then the frame is complete, every row number of the image
/// has arrived, and the frame holds in each row's range the bytes of the one
/// arrival with that number, whatever the order of arrival: every range was
/// written exactly once.
pub proof fn lemma_complete_frame_holds_every_row(state: FrameState, arrivals: Seq<Arrival>)
    requires
        state.inv(),
        state.completed == 0,
        state.takes(arrivals),
        rows_distinct(arrivals),
        arrivals.len() == state.height,
    ensures
        state.after(arrivals).inv(),
        state.after(arrivals).complete(),
        forall|row_number: nat|
            row_number < state.height ==> #[trigger] has_arrived(arrivals, row_number),
        forall|k: int|
            0 <= k < arrivals.len() ==> state.after(arrivals).bytes.subrange(
                row_start((#[trigger] arrivals[k]).row_number as int, state.row_len() as int),
                row_end(arrivals[k].row_number as int, state.row_len() as int),
            ) == arrivals[k].row,
{
    let frame = state.bytes;
    let row_len = state.row_len();
    let height = state.height;
    lemma_after(state, arrivals);
    let done = assemble(frame, arrivals);
    assert forall|k: int| 0 <= k < arrivals.len() implies done.subrange(
        row_start((#[trigger] arrivals[k]).row_number as int, row_len as int),
        row_end(arrivals[k].row_number as int, row_len as int),
    ) == arrivals[k].row by {
        let n = arrivals[k].row_number as int;
        lemma_ranges(n, n, row_len as int, height as int);
        let start = n * row_len;
        let piece = done.subrange(start, start + row_len);
        assert forall|i: int| 0 <= i < row_len implies piece[i] == arrivals[k].row[i] by {
            lemma_assembled_byte(frame, arrivals, row_len, height, start + i);
            assert(arrivals[k].covers(start + i));
        }
        assert(piece =~= arrivals[k].row);
    }
    let numbers = Seq::new(arrivals.len(), |k: int| arrivals[k].row_number as int);
    assert(numbers.no_duplicates()) by {
        assert forall|j: int, k: int|
            0 <= j < numbers.len() && 0 <= k < numbers.len() && j != k implies numbers[j]
            != numbers[k] by {
            if j < k {
                assert(arrivals[j].row_number != arrivals[k].row_number);
            } else {
                assert(arrivals[k].row_number != arrivals[j].row_number);
            }
        }
    }
    numbers.unique_seq_to_set();
    vstd::set_lib::lemma_int_range(0, height as int);
    let all = vstd::set_lib::set_int_range(0, height as int);
    assert(numbers.to_set().subset_of(all)) by {
        assert forall|n: int| numbers.to_set().contains(n) implies all.contains(n) by {
            let k = choose|k: int| 0 <= k < numbers.len() && numbers[k] == n;
            assert(arrivals[k].row_number < height);
        }
    }
    vstd::seq_lib::seq_to_set_is_finite(numbers);
    vstd::set_lib::lemma_subset_equality(numbers.to_set(), all);
    assert forall|row_number: nat| row_number < height implies #[trigger] has_arrived(
        arrivals,
        row_number,
    ) by {
        assert(all.contains(row_number as int));
        assert(numbers.to_set().contains(row_number as int));
        let k = choose|k: int| 0 <= k < numbers.len() && numbers[k] == row_number as int;
        assert(arrivals[k].row_number == row_number);
    }
}

} // verus!
