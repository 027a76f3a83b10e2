//! The frame buffer and the placement of finished rows in it.
//!
//! A frame is a flat sequence of bytes, row after row, top row first. A row
//! that a worker hands back carries its row number; it is copied to the byte
//! range that belongs to that number, so the layout of the finished frame does
//! not depend on the order in which rows arrive.

use crate::config::RenderConfig;
use vstd::prelude::*;

verus! {

/// Where in the frame the row with number `row_number` starts, when a row
/// has `row_len` bytes.
pub open spec fn row_start(row_number: int, row_len: int) -> int {
    row_number * row_len
}

/// Where in the frame the row with number `row_number` ends: the start of the
/// row after it.
pub open spec fn row_end(row_number: int, row_len: int) -> int {
    (row_number + 1) * row_len
}

/// The frame `frame` after `row` was written at row number `row_number`: the
/// bytes from the start to the end of that row's range are those of `row`,
/// every other byte is the one `frame` had.
pub open spec fn with_row(frame: Seq<u8>, row: Seq<u8>, row_number: int) -> Seq<u8> {
    Seq::new(
        frame.len(),
        |i: int|
            if row_start(row_number, row.len() as int) <= i < row_end(
                row_number,
                row.len() as int,
            ) {
                row[i - row_start(row_number, row.len() as int)]
            } else {
                frame[i]
            },
    )
}

/// Copies `row` into `buffer` at the place of row number `row_number`.
///
/// The row must lie inside the buffer. Exactly the bytes of that row's range
/// change; the buffer keeps its length.
pub fn add_row_to_buffer(buffer: &mut Vec<u8>, row: Vec<u8>, row_number: u32)
    requires
        (row_number + 1) * row@.len() <= old(buffer)@.len(),
    ensures
        final(buffer)@ == with_row(old(buffer)@, row@, row_number as int),
        final(buffer)@.len() == old(buffer)@.len(),
{
    let ghost before = buffer@;
    let row_length = row.len();
    let buffer_length = buffer.len();
    assert(row_number * row_length + row_length == (row_number + 1) * row_length)
        by (nonlinear_arith);
    let start = (row_number as usize) * row_length;
    let mut row_index: usize = 0;
    while row_index < row_length
        invariant
            row_length == row@.len(),
            start == row_number * row_length,
            start + row_length <= buffer_length,
            buffer@.len() == buffer_length,
            before.len() == buffer_length,
            row_index <= row_length,
            forall|i: int| 0 <= i < row_index ==> buffer@[start + i] == row@[i],
            forall|j: int|
                0 <= j < buffer@.len() && !(start <= j < start + row_index) ==> buffer@[j]
                    == before[j],
        decreases row_length - row_index,
    {
        buffer[start + row_index] = row[row_index];
        row_index += 1;
    }
    assert(buffer@ =~= with_row(before, row@, row_number as int));
}

/// Why a finished row was not taken into the frame.
#[derive(Clone, Copy, Debug, PartialEq, Eq, Structural)]
pub enum AssemblyError {
    /// The row number is not below the image height.
    RowOutOfRange,
    /// The row does not have three bytes per pixel of the image width.
    WrongRowLength,
}

/// What a frame assembler holds: the image size, the frame's bytes, and the
/// number of rows taken in so far.
pub struct FrameState {
    pub width: nat,
    pub height: nat,
    pub bytes: Seq<u8>,
    pub completed: nat,
}

impl FrameState {
    /// Bytes in one row: three per pixel.
    pub open spec fn row_len(self) -> nat {
        3 * self.width
    }

    /// The frame has a place for every row, and no more rows were taken in
    /// than the image has.
    pub open spec fn inv(self) -> bool {
        &&& self.height > 0
        &&& self.bytes.len() == self.row_len() * self.height
        &&& self.completed <= self.height
    }

    /// The frame at the start of a render: all zero, no row taken in.
    pub open spec fn blank(width: nat, height: nat) -> FrameState {
        FrameState {
            width,
            height,
            bytes: Seq::new(3 * width * height, |i: int| 0u8),
            completed: 0,
        }
    }

    /// The frame counts as complete when as many rows were taken in as the
    /// image has.
    pub open spec fn complete(self) -> bool {
        self.completed == self.height
    }

    /// Progress in percent, rounded down.
    pub open spec fn percent(self) -> nat {
        self.completed * 100 / self.height
    }

    /// What is wrong with a row that arrives with number `row_number`, if
    /// anything is. The number is looked at first.
    pub open spec fn fault(self, row: Seq<u8>, row_number: nat) -> Option<AssemblyError> {
        if row_number >= self.height {
            Some(AssemblyError::RowOutOfRange)
        } else if row.len() != self.row_len() {
            Some(AssemblyError::WrongRowLength)
        } else {
            None
        }
    }

    /// The state after `row` was taken in at `row_number`.
    pub open spec fn accepted(self, row: Seq<u8>, row_number: nat) -> FrameState {
        FrameState {
            bytes: with_row(self.bytes, row, row_number as int),
            completed: self.completed + 1,
            ..self
        }
    }
}

/// Collects finished rows, in whatever order they arrive, into one frame.
pub struct FrameAssembler {
    width: u32,
    height: u32,
    buffer: Vec<u8>,
    completed: u32,
}

impl View for FrameAssembler {
    type V = FrameState;

    closed spec fn view(&self) -> FrameState {
        FrameState {
            width: self.width as nat,
            height: self.height as nat,
            bytes: self.buffer@,
            completed: self.completed as nat,
        }
    }
}

impl FrameAssembler {
    /// The assembler's invariant, which its constructor establishes and every
    /// method keeps.
    pub open spec fn wf(&self) -> bool {
        self@.inv()
    }

    /// An assembler for an image of the configured size, with a zero-filled
    /// frame and no row taken in.
    pub fn new(config: &RenderConfig) -> (assembler: FrameAssembler)
        requires
            config.valid(),
        ensures
            assembler.wf(),
            assembler@ == FrameState::blank(config.width as nat, config.height as nat),
    {
        let length = config.frame_length();
        let buffer = vec![0u8; length];
        let assembler = FrameAssembler {
            width: config.width,
            height: config.height,
            buffer,
            completed: 0,
        };
        proof {
            config.lemma_row_fits();
            assert(assembler@.bytes =~= FrameState::blank(
                config.width as nat,
                config.height as nat,
            ).bytes);
        }
        assembler
    }

    /// Takes in one finished row and returns the progress in percent.
    ///
    /// A row whose number is not below the height, or whose length is not
    /// that of a row of this image, is refused and the assembler is left as
    /// it was. Any other row is written to its place in the frame, over
    /// whatever was there, and counted.
    pub fn accept(&mut self, row: Vec<u8>, row_number: u32) -> (r: Result<u32, AssemblyError>)
        requires
            old(self).wf(),
            !old(self)@.complete(),
        ensures
            final(self).wf(),
            match old(self)@.fault(row@, row_number as nat) {
                Some(e) => r == Err::<u32, AssemblyError>(e) && final(self)@ == old(self)@,
                None => {
                    &&& final(self)@ == old(self)@.accepted(row@, row_number as nat)
                    &&& r matches Ok(percent) && percent == final(self)@.percent() && percent
                        <= 100
                },
            },
    {
        if row_number >= self.height {
            return Err(AssemblyError::RowOutOfRange);
        }
        proof {
            lemma_ranges(
                row_number as int,
                row_number as int,
                3 * self.width as int,
                self.height as int,
            );
            assert(self.buffer@.len() == self.buffer.len());
        }
        let row_length = 3 * (self.width as usize);
        if row.len() != row_length {
            return Err(AssemblyError::WrongRowLength);
        }
        add_row_to_buffer(&mut self.buffer, row, row_number);
        self.completed = self.completed + 1;
        Ok(self.progress_percent())
    }

    /// Whether as many rows were taken in as the image has.
    pub fn is_complete(&self) -> (done: bool)
        ensures
            done == self@.complete(),
    {
        self.completed == self.height
    }

    /// The number of rows taken in so far.
    pub fn rows_completed(&self) -> (n: u32)
        ensures
            n == self@.completed,
    {
        self.completed
    }

    /// Progress in percent, rounded down.
    pub fn progress_percent(&self) -> (percent: u32)
        requires
            self.wf(),
        ensures
            percent == self@.percent(),
            percent <= 100,
    {
        let done = (self.completed as u64) * 100;
        let percent = done / (self.height as u64);
        assert(percent <= 100) by (nonlinear_arith)
            requires
                percent == done / (self.height as u64),
                done <= 100 * self.height,
                self.height > 0,
        ;
        percent as u32
    }

    /// The bytes of the frame as they are now.
    pub fn frame(&self) -> (bytes: &Vec<u8>)
        ensures
            bytes@ == self@.bytes,
    {
        &self.buffer
    }

    /// Gives up the assembler for the bytes of its frame.
    pub fn into_frame(self) -> (bytes: Vec<u8>)
        ensures
            bytes@ == self@.bytes,
    {
        self.buffer
    }
}

/// Rows with different numbers have ranges that do not meet, and a row with a
/// number below the height lies inside the frame.
pub(crate) proof fn lemma_ranges(m: int, n: int, row_len: int, height: int)
    by (nonlinear_arith)
    requires
        0 <= m < height,
        0 <= n < height,
        0 <= row_len,
    ensures
        m < n ==> (m + 1) * row_len <= n * row_len,
        0 <= m * row_len,
        (m + 1) * row_len <= row_len * height,
        (m + 1) * row_len == m * row_len + row_len,
        row_len <= row_len * height,
{
}

/// Writing a row changes the bytes of that row's range, which are as many as
/// the row has, into the bytes of the row, and changes nothing before or
/// behind that range: not the rows next to it, nor the length of the frame.
pub proof fn lemma_row_write_is_fenced(frame: Seq<u8>, row: Seq<u8>, row_number: nat)
    requires
        (row_number + 1) * row.len() <= frame.len(),
    ensures
        ({
            let written = with_row(frame, row, row_number as int);
            let start = row_start(row_number as int, row.len() as int);
            let end = row_end(row_number as int, row.len() as int);
            &&& written.len() == frame.len()
            &&& 0 <= start <= end <= frame.len()
            &&& end - start == row.len()
            &&& written.subrange(start, end) == row
            &&& written.subrange(0, start) == frame.subrange(0, start)
            &&& written.subrange(end, frame.len() as int) == frame.subrange(
                end,
                frame.len() as int,
            )
        }),
{
    let written = with_row(frame, row, row_number as int);
    let start = row_start(row_number as int, row.len() as int);
    let end = row_end(row_number as int, row.len() as int);
    assert(0 <= start && end == start + row.len()) by (nonlinear_arith)
        requires
            start == row_number * row.len(),
            end == (row_number + 1) * row.len(),
    ;
    assert(written.subrange(start, end) =~= row);
    assert(written.subrange(0, start) =~= frame.subrange(0, start));
    assert(written.subrange(end, frame.len() as int) =~= frame.subrange(end, frame.len() as int));
}

/// Taking in the row with number `row_number` writes exactly the `3 * width`
/// bytes from `row_number * 3 * width` on, and no other: the rows before and
/// behind keep every byte. The assembler's invariant holds afterwards as long
/// as the frame was not complete before.
pub proof fn lemma_accepted_row_is_fenced(state: FrameState, row: Seq<u8>, row_number: nat)
    requires
        state.inv(),
        state.fault(row, row_number) is None,
    ensures
        ({
            let after = state.accepted(row, row_number);
            let start = row_number * (3 * state.width);
            let end = (row_number + 1) * (3 * state.width);
            &&& after.bytes.len() == state.bytes.len()
            &&& 0 <= start <= end <= state.bytes.len()
            &&& end - start == 3 * state.width
            &&& after.bytes.subrange(start as int, end as int) == row
            &&& after.bytes.subrange(0, start as int) == state.bytes.subrange(0, start as int)
            &&& after.bytes.subrange(end as int, state.bytes.len() as int)
                == state.bytes.subrange(end as int, state.bytes.len() as int)
            &&& !state.complete() ==> after.inv()
        }),
{
    lemma_ranges(
        row_number as int,
        row_number as int,
        state.row_len() as int,
        state.height as int,
    );
    lemma_row_write_is_fenced(state.bytes, row, row_number);
}

} // verus!
