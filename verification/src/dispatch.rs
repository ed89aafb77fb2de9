//! What the websocket relay does with the bytes it reads from its pipes and
//! the messages it receives over MQTT, apart from the reading and sending.
use crate::bufs::{
    bytes_content, bytes_freeze, bytes_mut_byte_at, bytes_mut_clone, bytes_mut_content, bytes_mut_extend,
    bytes_mut_len, bytes_mut_new, bytes_mut_resize, bytes_mut_split_to, bytes_mut_truncate,
    bytes_mut_with_capacity,
};
use crate::messages::{ControlMessage, ControlMessageType};
use bytes::{Bytes, BytesMut};
use vstd::prelude::*;

verus! {

/// Size of one read from a pipe.
pub const HOPPER_BUF_SIZE: usize = 65536;

/// The newline byte that separates images in the camera stream.
pub const IMAGE_SEPARATOR: u8 = 10u8;

/// A buffer of `len` zero bytes.
pub open spec fn zeros(len: nat) -> Seq<u8> {
    Seq::new(len, |i: int| 0u8)
}

/// `s` holds no newline before position `end`.
pub open spec fn no_separator_before(s: Seq<u8>, end: int) -> bool {
    forall|i: int| 0 <= i < end ==> s[i] != IMAGE_SEPARATOR
}

/// The position of the first newline in `s`, if there is one.
pub open spec fn first_separator(s: Seq<u8>) -> Option<int> {
    if exists|p: int| 0 <= p < s.len() && s[p] == IMAGE_SEPARATOR && no_separator_before(s, p) {
        Some(choose|p: int| 0 <= p < s.len() && s[p] == IMAGE_SEPARATOR && no_separator_before(s, p))
    } else {
        None
    }
}

/// The camera stream cut after every newline: the complete images, each
/// ending with its only newline, in order, and the incomplete tail after the
/// last newline.
pub open spec fn split_images(s: Seq<u8>) -> (Seq<Seq<u8>>, Seq<u8>)
    decreases s.len(),
{
    match first_separator(s) {
        Some(p) => if 0 <= p < s.len() {
            let (imgs, rest) = split_images(s.skip(p + 1));
            (seq![s.take(p + 1)] + imgs, rest)
        } else {
            (Seq::empty(), s)
        },
        None => (Seq::empty(), s),
    }
}

/// The byte sequences one after the other.
pub open spec fn concat(parts: Seq<Seq<u8>>) -> Seq<u8>
    decreases parts.len(),
{
    if parts.len() == 0 {
        Seq::empty()
    } else {
        concat(parts.drop_last()) + parts.last()
    }
}

/// The images handed out, as byte sequences.
pub open spec fn image_contents(imgs: Seq<Bytes>) -> Seq<Seq<u8>> {
    imgs.map_values(|b: Bytes| bytes_content(b))
}

/// Reassembles newline-separated images out of the chunks read from the
/// camera pipe.
pub struct ImageFramer {
    buf: BytesMut,
}

impl ImageFramer {
    /// What is held back never holds a newline: every complete image has
    /// been handed out.
    #[verifier::type_invariant]
    closed spec fn inv(&self) -> bool {
        no_separator_before(bytes_mut_content(self.buf), bytes_mut_content(self.buf).len() as int)
    }

    /// The bytes held back, waiting for the newline that ends their image.
    pub closed spec fn pending(&self) -> Seq<u8> {
        bytes_mut_content(self.buf)
    }

    /// A framer that holds nothing back.
    pub fn new() -> (r: ImageFramer)
        ensures
            r.pending() == Seq::<u8>::empty(),
    {
        ImageFramer { buf: bytes_mut_new() }
    }

    /// The number of bytes held back.
    pub fn pending_len(&self) -> (r: usize)
        ensures
            r == self.pending().len(),
            no_separator_before(self.pending(), self.pending().len() as int),
    {
        proof {
            use_type_invariant(self);
        }
        bytes_mut_len(&self.buf)
    }

    /// Takes in a chunk of which the first `n` bytes were filled by a read.
    /// The held-back bytes followed by those `n` bytes are cut after every
    /// newline: the complete images are returned in order, and the tail after
    /// the last newline is held back.
    pub fn push_chunk(&mut self, chunk: BytesMut, n: usize) -> (r: Vec<Bytes>)
        requires
            n <= bytes_mut_content(chunk).len(),
            old(self).pending().len() + n <= isize::MAX,
        ensures
            ({
                let (imgs, rest) = split_images(old(self).pending() + bytes_mut_content(chunk).take(n as int));
                &&& image_contents(r@) == imgs
                &&& final(self).pending() == rest
            }),
    {
        proof {
            use_type_invariant(&*self);
        }
        let ghost data = bytes_mut_content(chunk).take(n as int);
        let ghost whole = bytes_mut_content(self.buf) + data;
        let mut cbuf = chunk;
        bytes_mut_truncate(&mut cbuf, n);
        assert(bytes_mut_content(cbuf) == data);

        let mut buf = bytes_mut_new();
        std::mem::swap(&mut buf, &mut self.buf);
        let mut scan: usize = bytes_mut_len(&buf);
        bytes_mut_extend(&mut buf, cbuf);
        assert(bytes_mut_content(buf) == whole);

        let mut imgs: Vec<Bytes> = Vec::new();
        proof {
            assert(image_contents(imgs@) =~= Seq::<Seq<u8>>::empty());
        }
        while scan < bytes_mut_len(&buf)
            invariant
                scan <= bytes_mut_content(buf).len(),
                bytes_mut_content(buf).len() <= isize::MAX,
                no_separator_before(bytes_mut_content(buf), scan as int),
                split_images(whole) == ({
                    let (tail_imgs, tail_rest) = split_images(bytes_mut_content(buf));
                    (image_contents(imgs@) + tail_imgs, tail_rest)
                }),
            decreases bytes_mut_content(buf).len() - scan,
        {
            let ghost rest = bytes_mut_content(buf);
            if bytes_mut_byte_at(&buf, scan) == IMAGE_SEPARATOR {
                proof {
                    lemma_first_separator_is(rest, scan as int);
                }
                let img = bytes_mut_split_to(&mut buf, scan + 1);
                let ghost piece = bytes_mut_content(img);
                let b = bytes_freeze(img);
                let ghost before = imgs@;
                imgs.push(b);
                proof {
                    assert(image_contents(imgs@) =~= image_contents(before).push(piece));
                    let (ti, tr) = split_images(bytes_mut_content(buf));
                    assert(split_images(rest) == (seq![piece] + ti, tr));
                    assert(image_contents(before) + (seq![piece] + ti) =~= image_contents(before).push(piece) + ti);
                }
                scan = 0;
            } else {
                scan = scan + 1;
            }
        }
        proof {
            lemma_no_separator(bytes_mut_content(buf));
            assert(image_contents(imgs@) + Seq::<Seq<u8>>::empty() =~= image_contents(imgs@));
        }
        self.buf = buf;
        imgs
    }
}

proof fn lemma_first_separator_is(s: Seq<u8>, p: int)
    requires
        0 <= p < s.len(),
        s[p] == IMAGE_SEPARATOR,
        no_separator_before(s, p),
    ensures
        first_separator(s) == Some(p),
{
    let q = choose|q: int| 0 <= q < s.len() && s[q] == IMAGE_SEPARATOR && no_separator_before(s, q);
    assert(q == p) by {
        if q < p {
            assert(s[q] != IMAGE_SEPARATOR);
        } else if p < q {
            assert(s[p] != IMAGE_SEPARATOR);
        }
    }
}

proof fn lemma_first_separator_exists(s: Seq<u8>, k: int)
    requires
        0 <= k < s.len(),
        s[k] == IMAGE_SEPARATOR,
    ensures
        first_separator(s) is Some,
    decreases k,
{
    if no_separator_before(s, k) {
        lemma_first_separator_is(s, k);
    } else {
        let j = choose|j: int| 0 <= j < k && s[j] == IMAGE_SEPARATOR;
        lemma_first_separator_exists(s, j);
    }
}

proof fn lemma_no_separator(s: Seq<u8>)
    requires
        no_separator_before(s, s.len() as int),
    ensures
        first_separator(s) is None,
{
}

/// Cutting a sequence after every newline loses no byte and invents none;
/// every piece is non-empty and ends with its only newline; the tail holds no
/// newline.
pub proof fn lemma_split_images_pieces(s: Seq<u8>)
    ensures
        ({
            let (imgs, rest) = split_images(s);
            &&& concat(imgs) + rest == s
            &&& forall|i: int|
                0 <= i < imgs.len() ==> {
                    &&& #[trigger] imgs[i].len() > 0
                    &&& imgs[i].last() == IMAGE_SEPARATOR
                    &&& no_separator_before(imgs[i], imgs[i].len() - 1)
                }
            &&& no_separator_before(rest, rest.len() as int)
        }),
    decreases s.len(),
{
    match first_separator(s) {
        Some(p) => {
            let q = choose|q: int| 0 <= q < s.len() && s[q] == IMAGE_SEPARATOR && no_separator_before(s, q);
            assert(q == p);
            let tail = s.skip(p + 1);
            lemma_split_images_pieces(tail);
            let (ti, tr) = split_images(tail);
            let head = s.take(p + 1);
            let imgs = seq![head] + ti;
            lemma_concat_prepend(head, ti);
            assert(head + tail =~= s);
            assert(concat(imgs) + tr =~= head + (concat(ti) + tr));
            assert forall|i: int| 0 <= i < imgs.len() implies {
                &&& #[trigger] imgs[i].len() > 0
                &&& imgs[i].last() == IMAGE_SEPARATOR
                &&& no_separator_before(imgs[i], imgs[i].len() - 1)
            } by {
                if i == 0 {
                    assert(imgs[0] == head);
                } else {
                    assert(imgs[i] == ti[i - 1]);
                }
            }
        },
        None => {
            lemma_no_separator_when_none(s);
            assert(concat(Seq::<Seq<u8>>::empty()) + s =~= s);
        },
    }
}

proof fn lemma_no_separator_when_none(s: Seq<u8>)
    requires
        first_separator(s) is None,
    ensures
        no_separator_before(s, s.len() as int),
{
    assert forall|k: int| 0 <= k < s.len() implies s[k] != IMAGE_SEPARATOR by {
        if s[k] == IMAGE_SEPARATOR {
            lemma_first_separator_exists(s, k);
        }
    }
}

proof fn lemma_concat_prepend(head: Seq<u8>, parts: Seq<Seq<u8>>)
    ensures
        concat(seq![head] + parts) == head + concat(parts),
    decreases parts.len(),
{
    if parts.len() == 0 {
        assert(seq![head] + parts =~= seq![head]);
        assert(seq![head].drop_last() =~= Seq::<Seq<u8>>::empty());
        assert(concat(seq![head]) == concat(seq![head].drop_last()) + head);
        assert(Seq::<u8>::empty() + head =~= head);
        assert(head + Seq::<u8>::empty() =~= head);
    } else {
        lemma_concat_prepend(head, parts.drop_last());
        assert((seq![head] + parts).drop_last() =~= seq![head] + parts.drop_last());
        assert((seq![head] + parts).last() == parts.last());
        assert(head + concat(parts.drop_last()) + parts.last() =~= head + (concat(parts.drop_last()) + parts.last()));
    }
}

/// Cutting `s` followed by `t` is cutting `s`, then cutting its tail followed
/// by `t`.
proof fn lemma_split_append(s: Seq<u8>, t: Seq<u8>)
    ensures
        split_images(s + t) == ({
            let (si, sr) = split_images(s);
            let (ti, tr) = split_images(sr + t);
            (si + ti, tr)
        }),
    decreases s.len(),
{
    match first_separator(s) {
        Some(p) => {
            let q = choose|q: int| 0 <= q < s.len() && s[q] == IMAGE_SEPARATOR && no_separator_before(s, q);
            assert(q == p);
            assert((s + t)[p] == s[p]);
            assert(no_separator_before(s + t, p)) by {
                assert forall|k: int| 0 <= k < p implies (s + t)[k] != IMAGE_SEPARATOR by {
                    assert((s + t)[k] == s[k]);
                }
            }
            lemma_first_separator_is(s + t, p);
            assert((s + t).take(p + 1) =~= s.take(p + 1));
            assert((s + t).skip(p + 1) =~= s.skip(p + 1) + t);
            lemma_split_append(s.skip(p + 1), t);
            let (ti0, _) = split_images(s.skip(p + 1));
            let (ti, tr) = split_images(split_images(s.skip(p + 1)).1 + t);
            assert(seq![s.take(p + 1)] + (ti0 + ti) =~= (seq![s.take(p + 1)] + ti0) + ti);
        },
        None => {
            assert(Seq::<Seq<u8>>::empty() + split_images(s + t).0 =~= split_images(s + t).0);
        },
    }
}

/// Framing a series of chunks, one `push_chunk` each: the images emitted, in
/// order, and what is held back at the end.
pub open spec fn frame_all(pending: Seq<u8>, chunks: Seq<Seq<u8>>) -> (Seq<Seq<u8>>, Seq<u8>)
    decreases chunks.len(),
{
    if chunks.len() == 0 {
        (Seq::empty(), pending)
    } else {
        let (imgs, rest) = frame_all(pending, chunks.drop_last());
        let (more, rest2) = split_images(rest + chunks.last());
        (imgs + more, rest2)
    }
}

/// However the camera stream is cut into reads, a framer fed the reads one
/// `push_chunk` at a time emits what cutting the whole stream after every
/// newline gives: each image ends at its newline, in stream order, and
/// nothing is lost or repeated. (A framer never holds a newline back, as
/// `pending_len` states.)
pub proof fn lemma_framing_follows_stream(pending: Seq<u8>, chunks: Seq<Seq<u8>>)
    requires
        no_separator_before(pending, pending.len() as int),
    ensures
        frame_all(pending, chunks) == split_images(pending + concat(chunks)),
    decreases chunks.len(),
{
    if chunks.len() == 0 {
        assert(pending + concat(chunks) =~= pending);
        lemma_no_separator(pending);
    } else {
        let init = chunks.drop_last();
        lemma_framing_follows_stream(pending, init);
        lemma_split_append(pending + concat(init), chunks.last());
        assert(pending + concat(chunks) =~= (pending + concat(init)) + chunks.last());
    }
}

/// What a new framer sends over a series of reads `c1..ck`, each passed to
/// `push_chunk`: the images, one after the other, are a prefix of the bytes
/// read, and with what it holds back they are all of them, in order, none lost
/// or repeated; every image is non-empty and ends with a newline; what it
/// holds back has no newline; a read with no newline sends nothing; and when
/// the last read has a newline, the images reach at least its first one.
pub proof fn lemma_framing_over_reads(chunks: Seq<Seq<u8>>)
    ensures
        ({
            let (imgs, rest) = frame_all(Seq::empty(), chunks);
            &&& concat(imgs) + rest == concat(chunks)
            &&& concat(imgs) == concat(chunks).take(concat(imgs).len() as int)
            &&& forall|i: int|
                0 <= i < imgs.len() ==> #[trigger] imgs[i].len() > 0 && imgs[i].last() == IMAGE_SEPARATOR
            &&& no_separator_before(rest, rest.len() as int)
            &&& chunks.len() > 0 && first_separator(chunks.last()) is None ==> imgs == frame_all(
                Seq::empty(),
                chunks.drop_last(),
            ).0
            &&& chunks.len() > 0 ==> match first_separator(chunks.last()) {
                Some(p) => concat(imgs).len() >= concat(chunks.drop_last()).len() + p + 1,
                None => true,
            }
        }),
{
    let empty = Seq::<u8>::empty();
    let whole = concat(chunks);
    lemma_framing_follows_stream(empty, chunks);
    assert(empty + whole =~= whole);
    lemma_split_images_pieces(whole);
    let (imgs, rest) = frame_all(empty, chunks);
    assert(concat(imgs) == whole.take(concat(imgs).len() as int)) by {
        assert((concat(imgs) + rest).take(concat(imgs).len() as int) =~= concat(imgs));
    }
    assert forall|i: int| 0 <= i < imgs.len() implies #[trigger] imgs[i].len() > 0 && imgs[i].last()
        == IMAGE_SEPARATOR by {}
    if chunks.len() > 0 {
        let init = chunks.drop_last();
        let last = chunks.last();
        lemma_framing_follows_stream(empty, init);
        assert(empty + concat(init) =~= concat(init));
        lemma_split_images_pieces(concat(init));
        let (imgs0, rest0) = frame_all(empty, init);
        assert(whole == concat(init) + last);
        match first_separator(last) {
            None => {
                lemma_no_separator_when_none(last);
                assert(no_separator_before(rest0 + last, (rest0 + last).len() as int)) by {
                    assert forall|k: int| 0 <= k < (rest0 + last).len() implies (rest0 + last)[k] != IMAGE_SEPARATOR by {
                        if k < rest0.len() {
                            assert((rest0 + last)[k] == rest0[k]);
                        } else {
                            assert((rest0 + last)[k] == last[k - rest0.len()]);
                        }
                    }
                }
                lemma_no_separator(rest0 + last);
                assert(imgs0 + Seq::<Seq<u8>>::empty() =~= imgs0);
            },
            Some(p) => {
                let q = choose|q: int| 0 <= q < last.len() && last[q] == IMAGE_SEPARATOR && no_separator_before(last, q);
                assert(q == p);
                let k = concat(init).len() + p;
                assert(whole[k] == IMAGE_SEPARATOR);
                let start = whole.len() - rest.len();
                if start <= k {
                    assert(rest == whole.skip(start)) by {
                        assert((concat(imgs) + rest).skip(concat(imgs).len() as int) =~= rest);
                    }
                    assert(rest[k - start] == whole[k]);
                }
            },
        }
    }
}

/// A fresh buffer of `HOPPER_BUF_SIZE` zero bytes for the next read of a
/// camera chunk.
pub fn new_image_chunk() -> (r: BytesMut)
    ensures
        bytes_mut_content(r) == zeros(HOPPER_BUF_SIZE as nat),
        bytes_mut_content(r).len() == HOPPER_BUF_SIZE,
        forall|i: int| 0 <= i < HOPPER_BUF_SIZE ==> #[trigger] bytes_mut_content(r)[i] == 0u8,
{
    let mut cbuf = bytes_mut_with_capacity(HOPPER_BUF_SIZE);
    bytes_mut_resize(&mut cbuf, HOPPER_BUF_SIZE, 0);
    assert(bytes_mut_content(cbuf) == zeros(HOPPER_BUF_SIZE as nat));
    cbuf
}

/// Readies the log buffer for the next read: `HOPPER_BUF_SIZE` bytes, those
/// left from the last read kept, the rest zero.
pub fn prepare_log_read(buf: &mut BytesMut)
    ensures
        bytes_mut_content(*final(buf)) == if HOPPER_BUF_SIZE <= bytes_mut_content(*old(buf)).len() {
            bytes_mut_content(*old(buf)).take(HOPPER_BUF_SIZE as int)
        } else {
            bytes_mut_content(*old(buf)) + zeros((HOPPER_BUF_SIZE - bytes_mut_content(*old(buf)).len()) as nat)
        },
{
    bytes_mut_resize(buf, HOPPER_BUF_SIZE, 0);
    proof {
        if HOPPER_BUF_SIZE > bytes_mut_content(*old(buf)).len() {
            assert(bytes_mut_content(*buf) =~= bytes_mut_content(*old(buf)) + zeros((HOPPER_BUF_SIZE - bytes_mut_content(*old(buf)).len()) as nat));
        }
    }
}

/// After a read of `n` bytes into `buf`: cuts `buf` down to them and returns
/// them as a message for the websockets and the log buffer.
pub fn take_log_chunk(buf: &mut BytesMut, n: usize) -> (r: Bytes)
    ensures
        bytes_mut_content(*final(buf)) == bytes_mut_content(*old(buf)).take(
            if n <= bytes_mut_content(*old(buf)).len() { n as int } else { bytes_mut_content(*old(buf)).len() as int },
        ),
        bytes_content(r) == bytes_mut_content(*final(buf)),
{
    bytes_mut_truncate(buf, n);
    proof {
        if n > bytes_mut_content(*old(buf)).len() {
            assert(bytes_mut_content(*old(buf)).take(bytes_mut_content(*old(buf)).len() as int) =~= bytes_mut_content(*old(buf)));
        }
    }
    bytes_freeze(bytes_mut_clone(buf))
}

/// A control message of type `Reset` was read.
pub open spec fn is_reset(parsed: Option<ControlMessage>) -> bool {
    match parsed {
        Some(m) => m._type == ControlMessageType::Reset,
        None => false,
    }
}

/// Only a `Reset` counts as a reset: a `Start` or a `Stop` never does, and
/// nothing that does not read as a control message does.
pub proof fn lemma_only_reset_is_reset(m: ControlMessage)
    ensures
        is_reset(Some(m)) <==> m._type == ControlMessageType::Reset,
        m._type == ControlMessageType::Start ==> !is_reset(Some(m)),
        m._type == ControlMessageType::Stop ==> !is_reset(Some(m)),
        !is_reset(None),
{
}

/// Whether an MQTT message clears the robot's log buffer: it does when it
/// arrives on the robot control topic and reads as a control message of type
/// `Reset`. `parsed` is the message read as a control message, `None` where it
/// does not read as one.
pub fn resets_log(topic: &String, robot_control: &String, parsed: &Option<ControlMessage>) -> (r: bool)
    ensures
        r == (topic@ == robot_control@ && is_reset(*parsed)),
        r == (topic@ == robot_control@ && match *parsed {
            Some(m) => m._type == ControlMessageType::Reset,
            None => false,
        }),
{
    if *topic == *robot_control {
        match parsed {
            Some(m) => match m._type {
                ControlMessageType::Reset => true,
                _ => false,
            },
            None => false,
        }
    } else {
        false
    }
}

} // verus!
