use vstd::prelude::*;

verus! {

/// Capacity of the byte buffer behind a [`BufferReader`].
pub const BUFFER_CAPACITY: usize = 1024;

/// `sep` occurs in `s` at `i`, and at least one byte of `s` follows it.
///
/// The reader only reports a separator that is not the last thing written:
/// a separator that ends exactly at the end of the written bytes is not
/// (yet) taken as the end of a package.
pub open spec fn splits_at(s: Seq<u8>, sep: Seq<u8>, i: int) -> bool {
    &&& 0 <= i
    &&& i + sep.len() < s.len()
    &&& s.subrange(i, i + sep.len()) == sep
}

/// A fixed-size byte buffer that collects bytes read from a socket and cuts
/// them into packages at a separator sequence.
#[derive(Clone, Debug)]
pub struct BufferReader {
    buffer: [u8; 1024],
    start_indx: usize,
    end_indx: usize,
}

impl BufferReader {
    /// The reader's indices stay inside the buffer; one byte is always kept free.
    pub closed spec fn wf(&self) -> bool {
        self.start_indx <= self.end_indx < BUFFER_CAPACITY
    }

    /// The bytes written and not yet handed out as packages.
    pub closed spec fn pending(&self) -> Seq<u8> {
        self.buffer@.subrange(self.start_indx as int, self.end_indx as int)
    }

    /// How far into the buffer bytes have been written (handed-out bytes
    /// still count until the buffer is compressed).
    pub closed spec fn written(&self) -> nat {
        self.end_indx as nat
    }

    /// The pending bytes are among those written: compressing (which makes
    /// `written()` the pending length) never takes room away.
    pub proof fn lemma_pending_within_written(&self)
        requires
            self.wf(),
        ensures
            self.pending().len() <= self.written(),
            self.written() < BUFFER_CAPACITY,
    {
    }

    /// An empty reader.
    pub fn new() -> (res: BufferReader)
        ensures
            res.wf(),
            res.pending() == Seq::<u8>::empty(),
            res.written() == 0,
    {
        BufferReader { buffer: [0;1024], start_indx: 0, end_indx: 0 }
    }

    /// Appends `data` to the pending bytes.
    ///
    /// The caller keeps the data within [`Self::get_amount_to_write`]; the
    /// buffer has no room beyond it.
    pub fn write_to_buff(&mut self, data: Vec<u8>)
        requires
            old(self).wf(),
            data.len() + old(self).written() < BUFFER_CAPACITY,
        ensures
            final(self).wf(),
            final(self).pending() == old(self).pending() + data@,
            final(self).written() == old(self).written() + data.len(),
    {
        let mut i: usize = 0;
        while i < data.len()
            invariant
                self.wf(),
                i <= data.len(),
                old(self).end_indx + data.len() < BUFFER_CAPACITY,
                self.start_indx == old(self).start_indx,
                self.end_indx == old(self).end_indx + i,
                self.pending() == old(self).pending() + data@.subrange(0, i as int),
            decreases data.len() - i,
        {
            let ghost before = self.buffer@;
            self.buffer[self.end_indx] = data[i];
            self.end_indx = self.end_indx + 1;
            assert(self.pending() =~= old(self).pending() + data@.subrange(0, i + 1)) by {
                let prev = before.subrange(self.start_indx as int, self.end_indx - 1);
                assert(prev == old(self).pending() + data@.subrange(0, i as int));
                assert forall|k: int| 0 <= k < self.pending().len() implies self.pending()[k] == (
                old(self).pending() + data@.subrange(0, i + 1))[k] by {
                    if k < self.pending().len() - 1 {
                        assert(self.pending()[k] == prev[k]);
                    }
                }
            }
            i = i + 1;
        }
        assert(data@.subrange(0, data.len() as int) =~= data@);
    }

    /// Free room left in the buffer.
    pub fn get_amount_to_write(&self) -> (res: usize)
        requires
            self.wf(),
        ensures
            res == BUFFER_CAPACITY - 1 - self.written(),
    {
        return BUFFER_CAPACITY - self.end_indx - 1;
    }

    /// Takes the bytes before the first separator that is followed by more
    /// data; the separator itself is dropped.
    pub fn get_next_package_if_exists(&mut self, sequence: &Vec<u8>) -> (res: Option<Vec<u8>>)
        requires
            old(self).wf(),
            sequence.len() > 0,
        ensures
            final(self).wf(),
            final(self).written() == old(self).written(),
            match res {
                Some(package) => {
                    &&& splits_at(old(self).pending(), sequence@, package.len() as int)
                    &&& forall|j: int|
                        0 <= j < package.len() ==> !splits_at(old(self).pending(), sequence@, j)
                    &&& package@ == old(self).pending().subrange(0, package.len() as int)
                    &&& final(self).pending() == old(self).pending().subrange(
                        package.len() + sequence.len(),
                        old(self).pending().len() as int,
                    )
                },
                None => {
                    &&& forall|j: int| !splits_at(old(self).pending(), sequence@, j)
                    &&& *final(self) == *old(self)
                },
            },
    {
        let next_indx = self.get_sequence_indx(sequence);
        match next_indx {
            None => None,
            Some(next) => {
                let result = self.copy_range(self.start_indx, next - sequence.len());
                let ghost old_start = self.start_indx;
                self.start_indx = next;
                assert(self.pending() =~= old(self).pending().subrange(
                    result.len() + sequence.len(),
                    old(self).pending().len() as int,
                ));
                Some(result)
            },
        }
    }

    /// Moves the pending bytes to the front of the buffer, freeing the room
    /// taken by packages already handed out.
    pub fn compress(&mut self)
        requires
            old(self).wf(),
        ensures
            final(self).wf(),
            final(self).pending() == old(self).pending(),
            final(self).written() == old(self).pending().len(),
            final(self).written() <= old(self).written(),
    {
        if self.start_indx == self.end_indx {
            self.start_indx = 0;
            self.end_indx = 0;
            assert(self.pending() =~= old(self).pending());
            return ;
        }
        let mut new_slice: [u8; 1024] = [0;1024];
        let mut count: usize = 0;
        let mut indx: usize = self.start_indx;
        while indx < self.end_indx
            invariant
                self.wf(),
                *self == *old(self),
                self.start_indx <= indx <= self.end_indx,
                count == indx - self.start_indx,
                forall|k: int|
                    0 <= k < count ==> new_slice@[k] == self.buffer@[self.start_indx + k],
            decreases self.end_indx - indx,
        {
            new_slice[count] = self.buffer[indx];
            count = count + 1;
            indx = indx + 1;
        }
        self.buffer = new_slice;
        self.end_indx = self.end_indx - self.start_indx;
        self.start_indx = 0;
        assert(self.pending() =~= old(self).pending());
    }

    /// Copies `buffer[from..to]` out.
    fn copy_range(&self, from: usize, to: usize) -> (res: Vec<u8>)
        requires
            from <= to <= BUFFER_CAPACITY,
        ensures
            res@ == self.buffer@.subrange(from as int, to as int),
    {
        let mut res: Vec<u8> = Vec::new();
        let mut i: usize = from;
        while i < to
            invariant
                from <= i <= to <= BUFFER_CAPACITY,
                res@ == self.buffer@.subrange(from as int, i as int),
            decreases to - i,
        {
            res.push(self.buffer[i]);
            i = i + 1;
            assert(res@ =~= self.buffer@.subrange(from as int, i as int));
        }
        res
    }

    fn is_sequence_the_same(&self, target: &Vec<u8>, dest: &Vec<u8>) -> (res: bool)
        ensures
            res == (target@ == dest@),
    {
        if target.len() != dest.len() {
            return false;
        }
        let mut indx: usize = 0;
        while indx < target.len()
            invariant
                target.len() == dest.len(),
                indx <= target.len(),
                forall|k: int| 0 <= k < indx ==> target@[k] == dest@[k],
            decreases target.len() - indx,
        {
            if target[indx] != dest[indx] {
                return false;
            }
            indx = indx + 1;
        }
        assert(target@ =~= dest@);
        return true;
    }

    /// Index just past the first separator that is followed by more data.
    fn get_sequence_indx(&self, sequence: &Vec<u8>) -> (res: Option<usize>)
        requires
            self.wf(),
            sequence.len() > 0,
        ensures
            match res {
                Some(next) => {
                    &&& self.start_indx + sequence.len() <= next < self.end_indx
                    &&& splits_at(
                        self.pending(),
                        sequence@,
                        next - sequence.len() - self.start_indx,
                    )
                    &&& forall|j: int|
                        0 <= j < next - sequence.len() - self.start_indx ==> !splits_at(
                            self.pending(),
                            sequence@,
                            j,
                        )
                },
                None => forall|j: int| !splits_at(self.pending(), sequence@, j),
            },
    {
        if self.end_indx < sequence.len() {
            return None;
        }
        let range_to_iter_without_sequence: usize = self.end_indx - sequence.len();
        let mut indx: usize = self.start_indx;
        while indx < range_to_iter_without_sequence
            invariant
                self.wf(),
                sequence.len() > 0,
                range_to_iter_without_sequence == self.end_indx - sequence.len(),
                self.start_indx <= indx,
                forall|j: int|
                    0 <= j < indx - self.start_indx ==> !splits_at(self.pending(), sequence@, j),
            decreases range_to_iter_without_sequence - indx,
        {
            if self.buffer[indx] == sequence[0] {
                let candidate = self.copy_range(indx, indx + sequence.len());
                assert(candidate@ =~= self.pending().subrange(
                    indx - self.start_indx,
                    indx - self.start_indx + sequence.len(),
                ));
                if self.is_sequence_the_same(&candidate, sequence) {
                    return Some(indx + sequence.len());
                }
            } else {
                assert(self.pending().subrange(
                    indx - self.start_indx,
                    indx - self.start_indx + sequence.len(),
                )[0] != sequence@[0]);
            }
            indx = indx + 1;
        }
        return None;
    }
}

/// Bytes written in one piece come out as one package once a separator and
/// at least one further byte follow them, provided the package itself holds
/// no earlier separator.
pub proof fn lemma_package_round_trip(message: Seq<u8>, sep: Seq<u8>, rest: Seq<u8>)
    requires
        sep.len() > 0,
        rest.len() > 0,
        forall|j: int| 0 <= j < message.len() ==> !splits_at(message + sep + rest, sep, j),
    ensures
        splits_at(message + sep + rest, sep, message.len() as int),
        (message + sep + rest).subrange(0, message.len() as int) == message,
        (message + sep + rest).subrange(
            (message.len() + sep.len()) as int,
            (message + sep + rest).len() as int,
        ) == rest,
{
    let s = message + sep + rest;
    assert(s.subrange(message.len() as int, (message.len() + sep.len()) as int) =~= sep);
    assert(s.subrange(0, message.len() as int) =~= message);
    assert(s.subrange((message.len() + sep.len()) as int, s.len() as int) =~= rest);
}

} // verus!
