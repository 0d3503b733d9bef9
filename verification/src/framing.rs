//! Framing of the byte stream into newline-separated requests.

use crate::connection::Request;
use crate::error::ServerError;
use vstd::prelude::*;

verus! {

/// The newline byte that ends each request.
pub const NEWLINE: u8 = 10u8;

/// The lines joined back together, a newline between each two.
pub open spec fn join_lines(lines: Seq<Seq<u8>>) -> Seq<u8>
    decreases lines.len(),
{
    if lines.len() <= 1 {
        if lines.len() == 0 {
            Seq::empty()
        } else {
            lines[0]
        }
    } else {
        join_lines(lines.drop_last()).push(NEWLINE) + lines.last()
    }
}

/// No byte of the line is a newline.
pub open spec fn no_newline(line: Seq<u8>) -> bool {
    forall|i: int| 0 <= i < line.len() ==> #[trigger] line[i] != NEWLINE
}

/// The contents of each line.
pub open spec fn lines_view(lines: Seq<Vec<u8>>) -> Seq<Seq<u8>> {
    lines.map_values(|l: Vec<u8>| l@)
}

/// Splits bytes at each newline: the pieces hold no newline, and joined with
/// newlines they give back the bytes (by `law_lines_determined_by_join`,
/// these are the only such pieces).
pub fn split_lines(data: &[u8]) -> (lines: Vec<Vec<u8>>)
    ensures
        lines.len() >= 1,
        forall|i: int| 0 <= i < lines.len() ==> no_newline(#[trigger] lines@[i]@),
        join_lines(lines_view(lines@)) == data@,
{
    let mut lines: Vec<Vec<u8>> = Vec::new();
    let mut current: Vec<u8> = Vec::new();
    let mut i: usize = 0;
    while i < data.len()
        invariant
            0 <= i <= data.len(),
            no_newline(current@),
            forall|j: int| 0 <= j < lines.len() ==> no_newline(#[trigger] lines@[j]@),
            join_lines(lines_view(lines@).push(current@)) == data@.subrange(0, i as int),
        decreases data.len() - i,
    {
        let b = data[i];
        let ghost before = lines_view(lines@).push(current@);
        if b == NEWLINE {
            let done = current;
            current = Vec::new();
            lines.push(done);
            proof {
                let after = lines_view(lines@).push(current@);
                assert(after.drop_last() =~= before);
                assert(after.last() =~= Seq::<u8>::empty());
                assert(data@.subrange(0, i + 1) =~= data@.subrange(0, i as int).push(b));
                assert(join_lines(after) =~= join_lines(before).push(NEWLINE));
            }
        } else {
            current.push(b);
            proof {
                let after = lines_view(lines@).push(current@);
                assert(after.drop_last() =~= before.drop_last());
                assert(data@.subrange(0, i + 1) =~= data@.subrange(0, i as int).push(b));
                assert(join_lines(after) =~= join_lines(before).push(b));
            }
        }
        i = i + 1;
    }
    let ghost pieces = lines_view(lines@).push(current@);
    lines.push(current);
    proof {
        assert(lines_view(lines@) =~= pieces);
        assert(data@.subrange(0, data@.len() as int) =~= data@);
    }
    lines
}

/// What a chunk read from the stream means for the request being read.
#[derive(Clone, Copy, PartialEq, Eq, Debug)]
pub enum FeedOutcome {
    /// The stream was closed: nothing more will come.
    EndOfStream,
    /// The bytes so far end with a newline: the request is complete.
    EndOfLine,
    /// The request goes on in the next chunk.
    NeedMore,
}

/// Reads requests from a stream: collects the bytes of the request being
/// read, and queues the requests that came together in one read.
pub struct RequestReader {
    data: Vec<u8>,
    request_queue: Vec<Result<Request, ServerError>>,
}

impl RequestReader {
    /// The bytes of the request being read.
    pub closed spec fn pending(&self) -> Seq<u8> {
        self.data@
    }

    /// The parsed requests that wait in the queue, oldest first.
    pub closed spec fn queue(&self) -> Seq<Result<Request, ServerError>> {
        self.request_queue@
    }

    /// A reader with nothing read and nothing queued.
    pub fn new() -> (r: Self)
        ensures
            r.pending() == Seq::<u8>::empty(),
            r.queue() == Seq::<Result<Request, ServerError>>::empty(),
    {
        RequestReader { data: Vec::new(), request_queue: Vec::with_capacity(16) }
    }

    /// Starts reading a new request: the bytes read so far are dropped.
    pub fn start_request(&mut self)
        ensures
            final(self).pending() == Seq::<u8>::empty(),
            final(self).queue() == old(self).queue(),
    {
        self.data = Vec::new();
    }

    /// Takes in a chunk read from the stream. An empty chunk means the
    /// stream was closed; otherwise the chunk is added to the request, which
    /// is complete where the chunk ends with a newline.
    pub fn feed(&mut self, chunk: &[u8]) -> (outcome: FeedOutcome)
        ensures
            final(self).pending() == old(self).pending() + chunk@,
            final(self).queue() == old(self).queue(),
            outcome == (if chunk@.len() == 0 {
                FeedOutcome::EndOfStream
            } else if chunk@.last() == NEWLINE {
                FeedOutcome::EndOfLine
            } else {
                FeedOutcome::NeedMore
            }),
    {
        let n = chunk.len();
        if n == 0 {
            assert(self.data@ + chunk@ =~= self.data@);
            return FeedOutcome::EndOfStream;
        }
        let mut i: usize = 0;
        let ghost start = self.data@;
        while i < n
            invariant
                0 <= i <= n,
                n == chunk@.len(),
                self.data@ == start + chunk@.subrange(0, i as int),
                self.request_queue@ == old(self).request_queue@,
                start == old(self).data@,
            decreases n - i,
        {
            self.data.push(chunk[i]);
            proof {
                assert(chunk@.subrange(0, i + 1) =~= chunk@.subrange(0, i as int).push(chunk@[i as int]));
            }
            i = i + 1;
        }
        assert(chunk@.subrange(0, n as int) =~= chunk@);
        if chunk[n - 1] == NEWLINE {
            FeedOutcome::EndOfLine
        } else {
            FeedOutcome::NeedMore
        }
    }

    /// The lines of the request read so far, split at each newline. The
    /// bytes read so far are kept.
    pub fn lines(&self) -> (lines: Vec<Vec<u8>>)
        ensures
            lines.len() >= 1,
            forall|i: int| 0 <= i < lines.len() ==> no_newline(#[trigger] lines@[i]@),
            join_lines(lines_view(lines@)) == self.pending(),
    {
        split_lines(self.data.as_slice())
    }

    /// Hands back the oldest queued request, if any request waits.
    pub fn take_queued(&mut self) -> (r: Option<Result<Request, ServerError>>)
        ensures
            final(self).pending() == old(self).pending(),
            old(self).queue().len() == 0 ==> r is None && final(self).queue() == old(self).queue(),
            old(self).queue().len() > 0 ==> r == Some(old(self).queue()[0]) && final(self).queue()
                == old(self).queue().drop_first(),
    {
        if self.request_queue.len() == 0 {
            None
        } else {
            Some(self.request_queue.remove(0))
        }
    }

    /// Queues the parse results of the lines of one read, after what was
    /// queued before, and hands back the oldest queued result: requests are
    /// answered in the order in which they came.
    pub fn next_request(&mut self, parsed: Vec<Result<Request, ServerError>>) -> (r: Result<
        Request,
        ServerError,
    >)
        requires
            old(self).queue().len() + parsed.len() >= 1,
        ensures
            r == (old(self).queue() + parsed@)[0],
            final(self).queue() == (old(self).queue() + parsed@).drop_first(),
            final(self).pending() == old(self).pending(),
    {
        let mut parsed = parsed;
        self.request_queue.append(&mut parsed);
        self.request_queue.remove(0)
    }
}

} // verus!

verus! {

/// Pieces without newlines that join to the same bytes are the same pieces:
/// splitting at each newline gives back exactly the lines that were joined.
pub proof fn law_lines_determined_by_join(a: Seq<Seq<u8>>, b: Seq<Seq<u8>>)
    requires
        a.len() >= 1,
        b.len() >= 1,
        forall|i: int| 0 <= i < a.len() ==> no_newline(#[trigger] a[i]),
        forall|i: int| 0 <= i < b.len() ==> no_newline(#[trigger] b[i]),
        join_lines(a) == join_lines(b),
    ensures
        a == b,
    decreases a.len() + b.len(),
{
    let d = join_lines(a);
    if a.len() == 1 && b.len() == 1 {
        assert(a =~= b);
    } else if a.len() == 1 {
        let pb = join_lines(b.drop_last());
        assert(d == pb.push(NEWLINE) + b.last());
        assert(d[pb.len() as int] == NEWLINE);
        assert(no_newline(a[0]));
        assert(false);
    } else if b.len() == 1 {
        let pa = join_lines(a.drop_last());
        assert(d == pa.push(NEWLINE) + a.last());
        assert(d[pa.len() as int] == NEWLINE);
        assert(no_newline(b[0]));
        assert(false);
    } else {
        let pa = join_lines(a.drop_last());
        let pb = join_lines(b.drop_last());
        let la = a.last();
        let lb = b.last();
        assert(d == pa.push(NEWLINE) + la);
        assert(d == pb.push(NEWLINE) + lb);
        assert(no_newline(la) && no_newline(lb)) by {
            assert(la == a[a.len() - 1]);
            assert(lb == b[b.len() - 1]);
        }
        if la.len() < lb.len() {
            let k = pa.len() as int;
            assert(d[k] == NEWLINE);
            assert(d[k] == lb[k - pb.len() - 1]);
            assert(false);
        } else if lb.len() < la.len() {
            let k = pb.len() as int;
            assert(d[k] == NEWLINE);
            assert(d[k] == la[k - pa.len() - 1]);
            assert(false);
        }
        assert(pa.len() == pb.len());
        assert(la =~= lb) by {
            assert forall|i: int| 0 <= i < la.len() implies la[i] == lb[i] by {
                assert(d[pa.len() + 1 + i] == la[i]);
                assert(d[pb.len() + 1 + i] == lb[i]);
            }
        }
        assert(pa =~= pb) by {
            assert forall|i: int| 0 <= i < pa.len() implies pa[i] == pb[i] by {
                assert(d[i] == pa[i]);
                assert(d[i] == pb[i]);
            }
        }
        assert forall|i: int| 0 <= i < a.drop_last().len() implies no_newline(#[trigger] a.drop_last()[i]) by {
            assert(a.drop_last()[i] == a[i]);
        }
        assert forall|i: int| 0 <= i < b.drop_last().len() implies no_newline(#[trigger] b.drop_last()[i]) by {
            assert(b.drop_last()[i] == b[i]);
        }
        law_lines_determined_by_join(a.drop_last(), b.drop_last());
        assert(a =~= a.drop_last().push(la));
        assert(b =~= b.drop_last().push(lb));
    }
}

} // verus!
