//! The chunked streaming transfer protocol.
//!
//! Uploads accumulate guest-written bytes into fixed-size blocks under
//! fresh block identifiers; the committed object becomes visible only
//! when the block list is published in one step.  Downloads carry a
//! byte window of an object and hand it out either whole or chunk by
//! chunk.

use vstd::prelude::*;

use crate::errors::Error;

verus! {

/// The size of one full upload block, in bytes.
pub const BLOCK_THRESHOLD: usize = 2 * 1024 * 1024;

/// The largest number of blocks one committed object may consist of.
pub const MAX_COMMITTED_BLOCKS: u64 = 50000;

/// The largest object one upload may produce: every byte beyond this
/// would need a block past the block ceiling.
pub const MAX_OBJECT_BYTES: u64 = 50000 * (2 * 1024 * 1024) - 1;

/// One sealed, not yet committed block.
struct Block {
    id: Vec<u8>,
    data: Vec<u8>,
}

/// The bytes of a block sequence, in order.
spec fn blocks_bytes(s: Seq<Block>) -> Seq<u8>
    decreases s.len(),
{
    if s.len() == 0 {
        Seq::empty()
    } else {
        s.first().data@ + blocks_bytes(s.drop_first())
    }
}

/// Sealing one more block appends its bytes.
proof fn lemma_blocks_bytes_push(s: Seq<Block>, b: Block)
    ensures
        blocks_bytes(s.push(b)) == blocks_bytes(s) + b.data@,
    decreases s.len(),
{
    let t = s.push(b);
    if s.len() == 0 {
        assert(t.drop_first() =~= Seq::<Block>::empty());
        assert(blocks_bytes(Seq::<Block>::empty()) == Seq::<u8>::empty());
        assert(blocks_bytes(s) == Seq::<u8>::empty());
        assert(t.first() == b);
        assert(blocks_bytes(t) =~= b.data@);
        assert(blocks_bytes(s) + b.data@ =~= b.data@);
    } else {
        assert(t.first() == s.first());
        assert(t.drop_first() =~= s.drop_first().push(b));
        lemma_blocks_bytes_push(s.drop_first(), b);
        assert(blocks_bytes(t) =~= blocks_bytes(s) + b.data@);
    }
}

/// Relies on `uuid::Uuid::new_v4` and `uuid::Uuid::as_bytes`: a fresh
/// version-4 UUID is 16 random bytes.  Nothing more is assumed of the
/// value; in particular, distinctness of two identifiers is never
/// relied on in any proof.
#[verifier::external_body]
fn fresh_block_id() -> (r: Vec<u8>)
    ensures
        r@.len() == 16,
{
    uuid::Uuid::new_v4().as_bytes().to_vec()
}

/// The bytes of a chunk sequence, in order.
pub open spec fn chunks_bytes(s: Seq<Vec<u8>>) -> Seq<u8>
    decreases s.len(),
{
    if s.len() == 0 {
        Seq::empty()
    } else {
        s.first()@ + chunks_bytes(s.drop_first())
    }
}

/// Appending one more chunk appends its bytes.
pub proof fn lemma_chunks_bytes_push(s: Seq<Vec<u8>>, v: Vec<u8>)
    ensures
        chunks_bytes(s.push(v)) == chunks_bytes(s) + v@,
    decreases s.len(),
{
    let t = s.push(v);
    if s.len() == 0 {
        assert(t.drop_first() =~= Seq::<Vec<u8>>::empty());
        assert(chunks_bytes(Seq::<Vec<u8>>::empty()) == Seq::<u8>::empty());
        assert(chunks_bytes(s) == Seq::<u8>::empty());
        assert(t.first() == v);
        assert(chunks_bytes(t) =~= v@);
        assert(chunks_bytes(s) + v@ =~= v@);
    } else {
        assert(t.first() == s.first());
        assert(t.drop_first() =~= s.drop_first().push(v));
        lemma_chunks_bytes_push(s.drop_first(), v);
        assert(chunks_bytes(t) =~= chunks_bytes(s) + v@);
    }
}

/// A downloaded byte window, ready for consumption in exactly one of
/// two modes: whole ([`IncomingBlobContent::consume_sync`]) or chunk
/// by chunk ([`IncomingBlobContent::into_chunks`]).  Both consume the
/// value, so the two modes exclude each other.
pub struct IncomingBlobContent {
    data: Vec<u8>,
}

impl IncomingBlobContent {
    /// The bytes carried by this download.
    pub closed spec fn content(self) -> Seq<u8> {
        self.data@
    }

    /// Wraps the byte window handed back by a backend.
    pub fn new(data: Vec<u8>) -> (c: IncomingBlobContent)
        ensures
            c.content() == data@,
    {
        IncomingBlobContent { data }
    }

    /// The size of the carried bytes.
    pub fn size(&self) -> (r: u64)
        ensures
            r == self.content().len(),
    {
        self.data.len() as u64
    }

    /// Synchronous full drain: the whole window in one buffer.
    pub fn consume_sync(self) -> (r: Vec<u8>)
        ensures
            r@ == self.content(),
    {
        self.data
    }

    /// Incremental mode: splits the window into chunks of
    /// `chunk_size` bytes for poll-driven consumption; only the last
    /// chunk may be shorter, and no chunk is empty.
    pub fn into_chunks(self, chunk_size: usize) -> (r: Vec<Vec<u8>>)
        requires
            chunk_size >= 1,
        ensures
            chunks_bytes(r@) == self.content(),
            forall|i: int| 0 <= i < r@.len() ==> 1 <= (#[trigger] r@[i]@.len()) <= chunk_size,
            forall|i: int| 0 <= i < r@.len() - 1 ==> (#[trigger] r@[i]@.len()) == chunk_size,
    {
        let mut rest = self.data;
        let mut out: Vec<Vec<u8>> = Vec::new();
        proof {
            assert(chunks_bytes(out@) + rest@ =~= self.content());
        }
        while rest.len() > chunk_size
            invariant
                chunk_size >= 1,
                chunks_bytes(out@) + rest@ == self.content(),
                forall|i: int| 0 <= i < out@.len() ==> (#[trigger] out@[i]@.len()) == chunk_size,
            decreases rest@.len(),
        {
            let ghost pre_out = out@;
            let ghost pre_rest = rest@;
            let mut tail = rest.split_off(chunk_size);
            core::mem::swap(&mut rest, &mut tail);
            proof {
                lemma_chunks_bytes_push(out@, tail);
            }
            out.push(tail);
            proof {
                assert(chunks_bytes(out@) + rest@ =~= chunks_bytes(pre_out) + pre_rest);
            }
        }
        if rest.len() > 0 {
            proof {
                lemma_chunks_bytes_push(out@, rest);
            }
            out.push(rest);
        } else {
            proof {
                assert(chunks_bytes(out@) =~= self.content());
            }
        }
        out
    }
}

/// An upload in progress: the write end handed to the guest, and the
/// sealed blocks the background commit work has accumulated.
///
/// Bytes written by the guest are sealed into `BLOCK_THRESHOLD`-sized
/// blocks as they arrive.  Nothing of the upload is visible to readers
/// until the dispatch layer publishes the assembled content in one
/// step.
pub struct OutgoingValue {
    blocks: Vec<Block>,
    current: Vec<u8>,
    total: u64,
    stream_taken: bool,
    target: Option<(usize, String)>,
    finished: bool,
}

impl OutgoingValue {
    /// Every sealed block is exactly one threshold of bytes under a
    /// 16-byte identifier, the unsealed remainder is shorter than one
    /// block, and the running total matches the accumulated content.
    pub closed spec fn well_formed(self) -> bool {
        &&& forall|i: int|
            0 <= i < self.blocks@.len() ==> (#[trigger] self.blocks@[i].data@.len())
                == BLOCK_THRESHOLD && self.blocks@[i].id@.len() == 16
        &&& self.current@.len() < BLOCK_THRESHOLD
        &&& self.total == self.content().len()
        &&& self.total <= MAX_OBJECT_BYTES
    }

    /// Every byte written so far, in order.
    pub closed spec fn content(self) -> Seq<u8> {
        blocks_bytes(self.blocks@) + self.current@
    }

    /// Whether the guest has already taken the write stream.
    pub closed spec fn spec_stream_taken(self) -> bool {
        self.stream_taken
    }

    /// The container slot and object name this upload is connected to,
    /// if it has been connected.
    pub closed spec fn spec_target(self) -> Option<(usize, Seq<char>)> {
        match self.target {
            Some(t) => Some((t.0, t.1@)),
            None => None,
        }
    }

    /// Whether the upload has been finished.
    pub closed spec fn spec_finished(self) -> bool {
        self.finished
    }

    /// Creates an upload with nothing written, not yet connected to an
    /// object.
    pub fn new() -> (v: OutgoingValue)
        ensures
            v.well_formed(),
            v.content() =~= Seq::<u8>::empty(),
            !v.spec_stream_taken(),
            v.spec_target() is None,
            !v.spec_finished(),
    {
        OutgoingValue {
            blocks: Vec::new(),
            current: Vec::new(),
            total: 0,
            stream_taken: false,
            target: None,
            finished: false,
        }
    }

    /// Hands out the write stream; there is only one, so a second call
    /// fails and changes nothing.
    pub fn take_write_stream(&mut self) -> (r: Result<(), Error>)
        ensures
            r is Ok <==> !old(self).spec_stream_taken(),
            r is Err ==> *final(self) == *old(self) && (r matches Err(e) && e
                matches Error::TransferAborted(m) && m@
                == "write stream already taken"@),
            r is Ok ==> final(self).spec_stream_taken()
                && final(self).content() == old(self).content()
                && final(self).well_formed() == old(self).well_formed()
                && final(self).spec_target() == old(self).spec_target()
                && final(self).spec_finished() == old(self).spec_finished(),
    {
        if self.stream_taken {
            Err(Error::TransferAborted("write stream already taken".to_owned()))
        } else {
            self.stream_taken = true;
            Ok(())
        }
    }

    /// Connects the upload to an object; there is only one connection,
    /// so a second call fails and changes nothing.
    pub fn connect(&mut self, slot: usize, name: String) -> (r: Result<(), Error>)
        ensures
            r is Ok <==> old(self).spec_target() is None,
            r is Err ==> *final(self) == *old(self) && (r matches Err(e) && e
                matches Error::TransferAborted(m) && m@
                == "upload already connected to an object"@),
            r is Ok ==> final(self).spec_target() == Some((slot, name@))
                && final(self).content() == old(self).content()
                && final(self).well_formed() == old(self).well_formed()
                && final(self).spec_stream_taken() == old(self).spec_stream_taken()
                && final(self).spec_finished() == old(self).spec_finished(),
    {
        match &self.target {
            Some(_) => Err(Error::TransferAborted("upload already connected to an object".to_owned())),
            None => {
                self.target = Some((slot, name));
                Ok(())
            },
        }
    }

    /// Appends `chunk` to the upload, sealing full blocks as they
    /// accumulate.
    ///
    /// Fails exactly when the object would outgrow the block ceiling
    /// or when the upload is already finished; the upload is then
    /// unchanged.  Never truncates silently.
    pub fn write(&mut self, chunk: Vec<u8>) -> (r: Result<(), Error>)
        requires
            old(self).well_formed(),
        ensures
            final(self).well_formed(),
            final(self).spec_stream_taken() == old(self).spec_stream_taken(),
            final(self).spec_target() == old(self).spec_target(),
            final(self).spec_finished() == old(self).spec_finished(),
            r is Ok <==> !old(self).spec_finished() && old(self).content().len() + chunk@.len()
                <= MAX_OBJECT_BYTES,
            r is Ok ==> final(self).content() == old(self).content() + chunk@,
            r is Err ==> final(self).content() == old(self).content() && (r matches Err(e) && e
                matches Error::TransferAborted(_)),
            old(self).spec_finished() ==> (r matches Err(e) && e matches Error::TransferAborted(m)
                && m@ == "upload already finished"@),
            !old(self).spec_finished() && old(self).content().len() + chunk@.len()
                > MAX_OBJECT_BYTES ==> (r matches Err(e) && e matches Error::TransferAborted(m)
                && m@ == "object exceeds the block ceiling"@),
    {
        if self.finished {
            return Err(Error::TransferAborted("upload already finished".to_owned()));
        }
        if chunk.len() as u64 > MAX_OBJECT_BYTES - self.total {
            return Err(Error::TransferAborted("object exceeds the block ceiling".to_owned()));
        }
        let ghost chunk0 = chunk@;
        self.total = self.total + chunk.len() as u64;
        let mut chunk = chunk;
        self.current.append(&mut chunk);
        proof {
            assert(blocks_bytes(self.blocks@) + self.current@ =~= old(self).content() + chunk0);
        }
        while self.current.len() >= BLOCK_THRESHOLD
            invariant
                blocks_bytes(self.blocks@) + self.current@ == old(self).content() + chunk0,
                forall|i: int|
                    0 <= i < self.blocks@.len() ==> (#[trigger] self.blocks@[i].data@.len())
                        == BLOCK_THRESHOLD && self.blocks@[i].id@.len() == 16,
                self.total == old(self).total + chunk0.len(),
                self.total == blocks_bytes(self.blocks@).len() + self.current@.len(),
                self.total <= MAX_OBJECT_BYTES,
                self.stream_taken == old(self).stream_taken,
                self.target == old(self).target,
                self.finished == old(self).finished,
            decreases self.current@.len(),
        {
            let ghost pre_blocks = self.blocks@;
            let ghost pre_current = self.current@;
            let mut tail = self.current.split_off(BLOCK_THRESHOLD);
            core::mem::swap(&mut self.current, &mut tail);
            let id = fresh_block_id();
            let b = Block { id, data: tail };
            proof {
                lemma_blocks_bytes_push(self.blocks@, b);
            }
            self.blocks.push(b);
            proof {
                assert(b.data@ + self.current@ =~= pre_current);
                assert(blocks_bytes(self.blocks@) + self.current@ =~= blocks_bytes(pre_blocks)
                    + pre_current);
            }
        }
        proof {
            assert(final(self).content() == old(self).content() + chunk0);
        }
        Ok(())
    }

    /// Seals the remainder, assembles the block list into the final
    /// content, and marks the upload finished.
    ///
    /// Fails exactly when the upload was never connected to an object
    /// or has already been finished; the upload is then unchanged.
    /// The returned content is exactly the bytes written, in order,
    /// together with the connected container slot and object name.
    pub fn finish_content(&mut self) -> (r: Result<(Vec<u8>, usize, String), Error>)
        requires
            old(self).well_formed(),
        ensures
            final(self).well_formed(),
            r is Ok <==> old(self).spec_target() is Some && !old(self).spec_finished(),
            old(self).spec_finished() ==> (r matches Err(e) && e matches Error::TransferAborted(m)
                && m@ == "upload already finished"@) && *final(self) == *old(self),
            !old(self).spec_finished() && old(self).spec_target() is None ==> (r matches Err(e)
                && e matches Error::TransferAborted(m) && m@
                == "upload not connected to an object"@) && *final(self) == *old(self),
            r matches Ok(out) ==> out.0@ == old(self).content()
                && Some((out.1, out.2@)) == old(self).spec_target()
                && final(self).spec_finished()
                && final(self).spec_target() == old(self).spec_target()
                && final(self).spec_stream_taken() == old(self).spec_stream_taken(),
    {
        if self.finished {
            return Err(Error::TransferAborted("upload already finished".to_owned()));
        }
        let (slot, name) = match &self.target {
            None => {
                return Err(Error::TransferAborted("upload not connected to an object".to_owned()));
            },
            Some(t) => (t.0, t.1.clone()),
        };
        let mut out: Vec<u8> = Vec::new();
        proof {
            assert(out@ + blocks_bytes(self.blocks@) + self.current@ =~= old(self).content());
        }
        while self.blocks.len() > 0
            invariant
                out@ + blocks_bytes(self.blocks@) + self.current@ == old(self).content(),
                self.current@ == old(self).current@,
                self.target == old(self).target,
                self.finished == old(self).finished,
                self.stream_taken == old(self).stream_taken,
            decreases self.blocks@.len(),
        {
            let ghost pre_blocks = self.blocks@;
            let ghost pre_out = out@;
            let mut b = self.blocks.remove(0);
            proof {
                assert(self.blocks@ =~= pre_blocks.drop_first());
                assert(b == pre_blocks.first());
            }
            let ghost b0 = b;
            out.append(&mut b.data);
            proof {
                assert(out@ == pre_out + b0.data@);
                assert(out@ + blocks_bytes(self.blocks@) + self.current@ =~= pre_out
                    + blocks_bytes(pre_blocks) + self.current@);
            }
        }
        out.append(&mut self.current);
        self.total = 0;
        self.finished = true;
        proof {
            assert(self.content() =~= Seq::<u8>::empty());
            assert(out@ =~= old(self).content());
        }
        Ok((out, slot, name))
    }
}


/// The bytes of a sequence of byte strings, in order.
pub open spec fn byte_seqs_concat(s: Seq<Seq<u8>>) -> Seq<u8>
    decreases s.len(),
{
    if s.len() == 0 {
        Seq::empty()
    } else {
        byte_seqs_concat(s.drop_last()) + s.last()
    }
}

/// Upload round trip: a run of writes, each appending its chunk to
/// the upload's content, accumulates exactly the concatenation of the
/// chunks — whatever the payload size and however it was chunked.
/// Publishing then stores exactly this content, by the contract of
/// the finish operation.
pub proof fn lemma_upload_accumulates(contents: Seq<Seq<u8>>, chunks: Seq<Seq<u8>>)
    requires
        contents.len() == chunks.len() + 1,
        forall|i: int| 0 <= i < chunks.len() ==> contents[i + 1] == contents[i] + #[trigger] chunks[i],
    ensures
        contents.last() == contents.first() + byte_seqs_concat(chunks),
    decreases chunks.len(),
{
    if chunks.len() == 0 {
        assert(byte_seqs_concat(chunks) =~= Seq::<u8>::empty());
        assert(contents.first() + byte_seqs_concat(chunks) =~= contents.first());
    } else {
        lemma_upload_accumulates(contents.drop_last(), chunks.drop_last());
        assert(contents.drop_last().first() == contents.first());
        assert(contents.drop_last().last() == contents[contents.len() - 2]);
        assert(contents.last() == contents[contents.len() - 2] + chunks.last());
        assert(contents.first() + byte_seqs_concat(chunks) =~= (contents.first()
            + byte_seqs_concat(chunks.drop_last())) + chunks.last());
    }
}


/// The names of a page sequence, front to back.
pub open spec fn pages_names(s: Seq<Vec<String>>) -> Seq<String>
    decreases s.len(),
{
    if s.len() == 0 {
        Seq::empty()
    } else {
        s.first()@ + pages_names(s.drop_first())
    }
}

/// The names of a reversed page sequence: the last page is the next
/// one to serve.
pub open spec fn pages_names_rev(s: Seq<Vec<String>>) -> Seq<String>
    decreases s.len(),
{
    if s.len() == 0 {
        Seq::empty()
    } else {
        s.last()@ + pages_names_rev(s.drop_last())
    }
}

/// Splitting the last page off a page sequence splits its names.
proof fn lemma_pages_names_last(s: Seq<Vec<String>>)
    requires
        s.len() > 0,
    ensures
        pages_names(s) == pages_names(s.drop_last()) + s.last()@,
    decreases s.len(),
{
    if s.len() == 1 {
        assert(s.drop_first() =~= Seq::<Vec<String>>::empty());
        assert(s.drop_last() =~= Seq::<Vec<String>>::empty());
        assert(pages_names(Seq::<Vec<String>>::empty()) == Seq::<String>::empty());
        assert(s.first() == s.last());
        assert(pages_names(s) =~= s.last()@);
        assert(pages_names(s.drop_last()) + s.last()@ =~= s.last()@);
    } else {
        lemma_pages_names_last(s.drop_first());
        assert(s.drop_last().first() == s.first());
        assert(s.drop_last().drop_first() =~= s.drop_first().drop_last());
        assert(s.drop_first().last() == s.last());
        assert(pages_names(s) =~= pages_names(s.drop_last()) + s.last()@);
    }
}

/// A reader over a paginated listing: it serves names page by page,
/// stashing the unserved rest of a page, and requests the next page
/// only once the stash is drained.
///
/// This mirrors how a backend cursor is consumed: a read may return
/// fewer names than asked for, but never reorders, duplicates or
/// drops one.
pub struct PagedNamesReader {
    pages_rev: Vec<Vec<String>>,
    pending: Vec<String>,
    end_after_pending: bool,
}

impl PagedNamesReader {
    /// Stored pages are nonempty; the end marker is set only once no
    /// page remains; and the stash empties before a page is taken.
    pub closed spec fn well_formed(self) -> bool {
        &&& forall|i: int|
            0 <= i < self.pages_rev@.len() ==> (#[trigger] self.pages_rev@[i])@.len() > 0
        &&& (self.end_after_pending ==> self.pages_rev@.len() == 0)
        &&& (self.pending@.len() > 0 && !self.end_after_pending ==> self.pages_rev@.len() > 0)
    }

    /// The names not yet handed out, in order.
    pub closed spec fn remaining(self) -> Seq<String> {
        self.pending@ + pages_names_rev(self.pages_rev@)
    }

    /// The stashed rest of a split page, served before the next page
    /// is taken.
    pub closed spec fn stash(self) -> Seq<String> {
        self.pending@
    }

    /// How many names the next page holds; zero once no page remains.
    pub closed spec fn next_page_len(self) -> nat {
        if self.pages_rev@.len() > 0 {
            self.pages_rev@.last()@.len()
        } else {
            0
        }
    }

    /// Wraps a paginated listing, given its pages in order.  A page
    /// may be empty — the backend cursor can yield one — and then
    /// simply carries no names.
    pub fn new(pages: Vec<Vec<String>>) -> (r: PagedNamesReader)
        ensures
            r.well_formed(),
            r.remaining() == pages_names(pages@),
            r.stash().len() == 0,
    {
        let mut rest = pages;
        let mut rev: Vec<Vec<String>> = Vec::new();
        proof {
            assert(pages_names_rev(rev@) =~= Seq::<String>::empty());
            assert(pages_names(rest@) + pages_names_rev(rev@) =~= pages_names(rest@));
        }
        while rest.len() > 0
            invariant
                pages_names(rest@) + pages_names_rev(rev@) == pages_names(pages@),
                forall|i: int| 0 <= i < rev@.len() ==> (#[trigger] rev@[i])@.len() > 0,
            decreases rest@.len(),
        {
            let ghost pre_rest = rest@;
            let ghost pre_rev = rev@;
            let page = match rest.pop() {
                Some(p) => p,
                None => unreached(),
            };
            proof {
                lemma_pages_names_last(pre_rest);
            }
            if page.len() > 0 {
                rev.push(page);
                proof {
                    assert(rev@.drop_last() =~= pre_rev);
                    assert(pages_names(rest@) + pages_names_rev(rev@) =~= pages_names(pages@));
                }
            } else {
                proof {
                    assert(pages_names(rest@) + pages_names_rev(rev@) =~= pages_names(pages@));
                }
            }
        }
        proof {
            assert(pages_names(rest@) =~= Seq::<String>::empty());
        }
        let r = PagedNamesReader { pages_rev: rev, pending: Vec::new(), end_after_pending: false };
        proof {
            assert(r.remaining() =~= pages_names(pages@));
        }
        r
    }

    /// Hands out up to `len` names, and whether the listing is known
    /// to be exhausted afterwards.
    ///
    /// Stashed names are served before the next page is taken, so a
    /// read serves exactly the smaller of `len` and what the stash —
    /// or, with an empty stash, the next page — holds: fewer than
    /// `len` names never mean the end, and a read never comes back
    /// empty-handed while names remain.  On a listing with names
    /// left, the flag is true exactly when nothing is left
    /// afterwards; draining a reader that was already empty reports
    /// no names and no end.
    pub fn read(&mut self, len: u64) -> (r: (Vec<String>, bool))
        requires
            old(self).well_formed(),
        ensures
            final(self).well_formed(),
            r.0@.len() == vstd::math::min(
                len as int,
                if old(self).stash().len() > 0 {
                    old(self).stash().len() as int
                } else {
                    old(self).next_page_len() as int
                },
            ),
            old(self).remaining().len() > 0 && len > 0 ==> r.0@.len() >= 1,
            r.0@ == old(self).remaining().take(r.0@.len() as int),
            final(self).remaining() == old(self).remaining().skip(r.0@.len() as int),
            old(self).remaining().len() == 0 ==> r.0@.len() == 0 && !r.1,
            old(self).remaining().len() > 0 ==> (r.1 <==> final(self).remaining().len() == 0),
    {
        if self.pending.len() > 0 {
            if self.pending.len() as u64 <= len {
                let mut out: Vec<String> = Vec::new();
                core::mem::swap(&mut self.pending, &mut out);
                let at_end = self.end_after_pending;
                proof {
                    assert(out@ =~= old(self).remaining().take(out@.len() as int));
                    assert(self.remaining() =~= old(self).remaining().skip(out@.len() as int));
                    if self.end_after_pending {
                        assert(pages_names_rev(self.pages_rev@) =~= Seq::<String>::empty());
                    } else {
                        assert(self.pages_rev@.len() > 0);
                        assert(self.pages_rev@.last()@.len() > 0);
                        assert(self.remaining().len() > 0);
                    }
                }
                (out, at_end)
            } else {
                let k = len as usize;
                let mut rest = self.pending.split_off(k);
                core::mem::swap(&mut self.pending, &mut rest);
                proof {
                    assert(rest@ =~= old(self).remaining().take(rest@.len() as int));
                    assert(self.remaining() =~= old(self).remaining().skip(rest@.len() as int));
                    assert(self.pending@.len() > 0);
                }
                (rest, false)
            }
        } else {
            let page = match self.pages_rev.pop() {
                Some(p) => p,
                None => {
                    proof {
                        assert(old(self).remaining() =~= Seq::<String>::empty());
                    }
                    return (Vec::new(), false);
                },
            };
            let ghost pre_pages = old(self).pages_rev@;
            let at_end_candidate = self.pages_rev.len() == 0;
            proof {
                assert(page == pre_pages.last());
                assert(pre_pages[pre_pages.len() - 1]@.len() > 0);
                assert(self.pages_rev@ =~= pre_pages.drop_last());
                assert(old(self).remaining() =~= page@ + pages_names_rev(pre_pages.drop_last()));
            }
            if page.len() as u64 <= len {
                let ghost served = page@.len() as int;
                proof {
                    assert(page@ =~= old(self).remaining().take(served));
                    assert(self.remaining() =~= old(self).remaining().skip(served));
                    if at_end_candidate {
                        assert(pages_names_rev(self.pages_rev@) =~= Seq::<String>::empty());
                    } else {
                        assert(self.pages_rev@.last()@.len() > 0);
                        assert(self.remaining().len() > 0);
                    }
                }
                (page, at_end_candidate)
            } else {
                let k = len as usize;
                let mut taken = page;
                let rest = taken.split_off(k);
                self.pending = rest;
                self.end_after_pending = at_end_candidate;
                proof {
                    assert(taken@ =~= old(self).remaining().take(taken@.len() as int));
                    assert(self.remaining() =~= old(self).remaining().skip(taken@.len() as int));
                    assert(self.pending@.len() > 0);
                }
                (taken, false)
            }
        }
    }

    /// Skips up to `num` names, returning how many were skipped and
    /// whether the listing is known to be exhausted afterwards, under
    /// the same rules as `read`.
    pub fn skip(&mut self, num: u64) -> (r: (u64, bool))
        requires
            old(self).well_formed(),
        ensures
            final(self).well_formed(),
            r.0 == vstd::math::min(
                num as int,
                if old(self).stash().len() > 0 {
                    old(self).stash().len() as int
                } else {
                    old(self).next_page_len() as int
                },
            ),
            old(self).remaining().len() > 0 && num > 0 ==> r.0 >= 1,
            final(self).remaining() == old(self).remaining().skip(r.0 as int),
            old(self).remaining().len() == 0 ==> r.0 == 0 && !r.1,
            old(self).remaining().len() > 0 ==> (r.1 <==> final(self).remaining().len() == 0),
    {
        let (taken, at_end) = self.read(num);
        (taken.len() as u64, at_end)
    }
}

} // verus!
