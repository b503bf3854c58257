//! OneBot outbound messages: how a reply's segments become message frames
//! (text split to the reply limit, a reply reference on a group's first
//! frame, files sent after the text), forward nodes, file uploads, and
//! what a finished turn delivers.
//!
//! Reading files, decoding images and the API calls are the host's.

use vstd::prelude::*;
use crate::codec::{base64_standard_encode, decodes_as_image, encode_base64, image_decodes};
use crate::i18n::{text, tr, Language};
use crate::path::{extension, extension_of, file_name, file_name_of};
use crate::platforms::markdown::{markdown_to_plain, markdown_to_plain_spec};
use crate::platforms::onebot::{sanitize_file_name, sanitize_file_name_spec, Target};
use crate::platforms::split::{split_reply, split_reply_spec, string_views};
use crate::text::{chars_of, push_all, push_range, push_str, string_of, trim, trim_bounds, u64_decimal, decimal};

verus! {

/// Largest image sent in a message.
pub const MAX_OUTBOUND_IMAGE_BYTES: usize = 20971520;

/// Largest file uploaded.
pub const MAX_OUTBOUND_FILE_BYTES: u64 = 52428800;

/// Largest file uploaded inline as base64 when the temporary URL failed.
pub const MAX_BASE64_FILE_BYTES: u64 = 16777216;

/// A reply segment as the adapter gets it, images from paths already read
/// (and decoded as images) by the host.
pub enum SendSegment {
    /// Markdown, flattened to plain text before sending.
    Markdown(String),
    Text(String),
    /// An @-mention of a user id.
    Mention(String),
    /// Image bytes.
    Image(Vec<u8>),
    /// An image file: its path, and its bytes (read up to the outbound
    /// image limit) or why they could not be read.
    ImageFile { path: String, bytes: Result<Vec<u8>, String> },
    /// A file to upload, with an optional display name.
    File { path: String, name: Option<String> },
}

/// A OneBot message segment.
pub enum WireSegment {
    Text(String),
    /// `at` with a user id.
    At(String),
    /// `image` with a `base64://` file.
    Image(String),
    /// `reply` to a message id.
    Reply(String),
}

/// A wire segment as (kind, payload): 0 text, 1 at, 2 image, 3 reply.
pub open spec fn wire_view(w: WireSegment) -> (nat, Seq<char>) {
    match w {
        WireSegment::Text(s) => (0, s@),
        WireSegment::At(s) => (1, s@),
        WireSegment::Image(s) => (2, s@),
        WireSegment::Reply(s) => (3, s@),
    }
}

pub open spec fn frame_view(f: Seq<WireSegment>) -> Seq<(nat, Seq<char>)> {
    f.map_values(|w: WireSegment| wire_view(w))
}

pub open spec fn frames_view(fs: Seq<Vec<WireSegment>>) -> Seq<Seq<(nat, Seq<char>)>> {
    fs.map_values(|f: Vec<WireSegment>| frame_view(f@))
}

/// Why a message cannot be sent.
#[derive(PartialEq, Eq, Debug)]
pub enum OutboundError {
    /// An image over `MAX_OUTBOUND_IMAGE_BYTES`.
    ImageTooLarge,
    /// An image file that could not be read, and why.
    ImageUnreadable(String),
    /// An image file that does not decode as a picture, by its path.
    ImageUndecodable(String),
    /// A file inside a forward node.
    FileInForward,
    /// A forward message without nodes.
    EmptyForward,
}

/// The `file` of an image segment: the bytes as `base64://` data.
pub open spec fn image_file_spec(data: Seq<u8>) -> Seq<char> {
    "base64://"@ + base64_standard_encode(data)
}

/// `data` as a `base64://` source, as images are sent and files are
/// uploaded inline.
pub fn base64_source(data: &Vec<u8>) -> (r: String)
    ensures
        r@ == image_file_spec(data@),
{
    let encoded = encode_base64(data);
    let mut v: Vec<char> = Vec::new();
    push_str(&mut v, "base64://");
    push_str(&mut v, encoded.as_str());
    string_of(&v)
}

/// The frames so far, the frame being filled, and the files to upload.
pub struct PlanState {
    pub frames: Seq<Seq<(nat, Seq<char>)>>,
    pub current: Seq<(nat, Seq<char>)>,
    pub files: Seq<(Seq<char>, Option<Seq<char>>)>,
}

/// Text chunks appended: each chunk but the last closes a frame.
pub open spec fn add_chunks(st: PlanState, chunks: Seq<Seq<char>>) -> PlanState
    decreases chunks.len(),
{
    if chunks.len() == 0 {
        st
    } else if chunks.len() == 1 {
        PlanState { current: st.current.push((0nat, chunks[0])), ..st }
    } else {
        add_chunks(
            PlanState { frames: st.frames.push(st.current.push((0nat, chunks[0]))), current: Seq::empty(), ..st },
            chunks.drop_first(),
        )
    }
}

/// One segment folded into the plan.
pub open spec fn segment_step(st: Result<PlanState, OutboundError>, seg: SendSegment, max: nat) -> Result<
    PlanState,
    OutboundError,
> {
    match st {
        Err(e) => Err(e),
        Ok(s) => match seg {
            SendSegment::Markdown(t) => Ok(add_chunks(s, split_reply_spec(markdown_to_plain_spec(t@), max))),
            SendSegment::Text(t) => Ok(add_chunks(s, split_reply_spec(t@, max))),
            SendSegment::Mention(u) => Ok(PlanState { current: s.current.push((1nat, u@)), ..s }),
            SendSegment::Image(b) => if b@.len() > MAX_OUTBOUND_IMAGE_BYTES {
                Err(OutboundError::ImageTooLarge)
            } else {
                Ok(PlanState { current: s.current.push((2nat, image_file_spec(b@))), ..s })
            },
            SendSegment::ImageFile { path, bytes } => match bytes {
                Ok(b) => if image_decodes(b@) {
                    Ok(PlanState { current: s.current.push((2nat, image_file_spec(b@))), ..s })
                } else {
                    Err(OutboundError::ImageUndecodable(path))
                },
                Err(e) => Err(OutboundError::ImageUnreadable(e)),
            },
            SendSegment::File { path, name } => Ok(
                PlanState {
                    frames: if s.current.len() > 0 {
                        s.frames.push(s.current)
                    } else {
                        s.frames
                    },
                    current: Seq::empty(),
                    files: s.files.push(
                        (
                            path@,
                            match name {
                                Some(n) => Some(n@),
                                None => None,
                            },
                        ),
                    ),
                },
            ),
        },
    }
}

pub open spec fn segments_fold(segs: Seq<SendSegment>, max: nat) -> Result<PlanState, OutboundError>
    decreases segs.len(),
{
    if segs.len() == 0 {
        Ok(PlanState { frames: Seq::empty(), current: Seq::empty(), files: Seq::empty() })
    } else {
        segment_step(segments_fold(segs.drop_last(), max), segs.last(), max)
    }
}

/// The frames and files of a message: the folded segments, the last frame
/// closed, and on a group a reply reference put first in the first frame.
pub open spec fn send_plan_spec(segs: Seq<SendSegment>, max: nat, target: Target, reply_to: Option<Seq<char>>) -> Result<
    (Seq<Seq<(nat, Seq<char>)>>, Seq<(Seq<char>, Option<Seq<char>>)>),
    OutboundError,
> {
    match segments_fold(segs, max) {
        Err(e) => Err(e),
        Ok(s) => {
            let frames = if s.current.len() > 0 {
                s.frames.push(s.current)
            } else {
                s.frames
            };
            let frames = match (target, reply_to) {
                (Target::Group { .. }, Some(id)) => if frames.len() > 0 {
                    frames.update(0, seq![(3nat, id)] + frames[0])
                } else {
                    frames
                },
                _ => frames,
            };
            Ok((frames, s.files))
        },
    }
}

/// The message frames to send, in order, and the files to upload after.
pub struct SendPlan {
    pub frames: Vec<Vec<WireSegment>>,
    pub files: Vec<(String, Option<String>)>,
}

pub open spec fn files_view(files: Seq<(String, Option<String>)>) -> Seq<(Seq<char>, Option<Seq<char>>)> {
    files.map_values(
        |f: (String, Option<String>)|
            (
                f.0@,
                match f.1 {
                    Some(n) => Some(n@),
                    None => None,
                },
            ),
    )
}

fn owned(s: &str) -> (r: String)
    ensures
        r@ == s@,
{
    string_of(&chars_of(s))
}

fn push_chunks(
    frames: &mut Vec<Vec<WireSegment>>,
    current: &mut Vec<WireSegment>,
    chunks: Vec<String>,
    files: Ghost<Seq<(Seq<char>, Option<Seq<char>>)>>,
)
    ensures
        ({
            let st = add_chunks(
                PlanState { frames: frames_view(old(frames)@), current: frame_view(old(current)@), files: files@ },
                string_views(chunks@),
            );
            &&& frames_view(final(frames)@) == st.frames
            &&& frame_view(final(current)@) == st.current
            &&& st.files == files@
        }),
{
    let ghost all = string_views(chunks@);
    let ghost st0 = PlanState { frames: frames_view(frames@), current: frame_view(current@), files: files@ };
    let n = chunks.len();
    let mut i: usize = 0;
    proof {
        lemma_add_chunks_files(st0, all);
        assert(all.skip(0) =~= all);
    }
    while i < n
        invariant
            n == chunks@.len(),
            all == string_views(chunks@),
            i <= n,
            add_chunks(
                PlanState { frames: frames_view(frames@), current: frame_view(current@), files: files@ },
                all.skip(i as int),
            ) == add_chunks(st0, all),
            add_chunks(st0, all).files == files@,
        decreases n - i,
    {
        let ghost st = PlanState { frames: frames_view(frames@), current: frame_view(current@), files: files@ };
        let ghost rest = all.skip(i as int);
        let chunk = owned(chunks[i].as_str());
        current.push(WireSegment::Text(chunk));
        proof {
            assert(rest[0] == all[i as int]);
            assert(frame_view(current@) =~= st.current.push((0nat, rest[0])));
        }
        if i + 1 < n {
            let mut taken: Vec<WireSegment> = Vec::new();
            std::mem::swap(&mut taken, current);
            frames.push(taken);
            proof {
                assert(rest.drop_first() =~= all.skip(i as int + 1));
                assert(frames_view(frames@) =~= st.frames.push(st.current.push((0nat, rest[0]))));
                assert(frame_view(current@) =~= Seq::<(nat, Seq<char>)>::empty());
            }
        } else {
            proof {
                assert(rest.len() == 1);
                assert(all.skip(i as int + 1).len() == 0);
                assert(all.skip(i as int + 1) =~= Seq::<Seq<char>>::empty());
            }
        }
        i = i + 1;
    }
}

proof fn lemma_add_chunks_files(st: PlanState, chunks: Seq<Seq<char>>)
    ensures
        add_chunks(st, chunks).files == st.files,
    decreases chunks.len(),
{
    if chunks.len() > 1 {
        lemma_add_chunks_files(
            PlanState { frames: st.frames.push(st.current.push((0nat, chunks[0]))), current: Seq::empty(), ..st },
            chunks.drop_first(),
        );
    }
}

/// Plans a message: its segments as frames of at most the reply limit of
/// text each, a reply reference on a group's first frame, the files after.
pub fn plan_segments(
    segments: Vec<SendSegment>,
    max_reply_chars: usize,
    target: Target,
    reply_to: Option<&str>,
) -> (r: Result<SendPlan, OutboundError>)
    ensures
        match send_plan_spec(segments@, max_reply_chars as nat, target, match reply_to {
            Some(s) => Some(s@),
            None => None,
        }) {
            Err(e) => r == Err::<SendPlan, OutboundError>(e),
            Ok((frames, files)) => r matches Ok(p) && frames_view(p.frames@) == frames && files_view(
                p.files@,
            ) == files,
        },
{
    let ghost segs = segments@;
    let mut frames: Vec<Vec<WireSegment>> = Vec::new();
    let mut current: Vec<WireSegment> = Vec::new();
    let mut files: Vec<(String, Option<String>)> = Vec::new();
    let n = segments.len();
    let mut remaining = segments;
    let mut i: usize = 0;
    assert(frames_view(frames@) =~= Seq::<Seq<(nat, Seq<char>)>>::empty());
    assert(frame_view(current@) =~= Seq::<(nat, Seq<char>)>::empty());
    assert(files_view(files@) =~= Seq::<(Seq<char>, Option<Seq<char>>)>::empty());
    assert(segs.take(0) =~= Seq::<SendSegment>::empty());
    assert(segs.skip(0) =~= segs);
    while i < n
        invariant
            n == segs.len(),
            segs == segments@,
            remaining@ == segs.skip(i as int),
            i <= n,
            segments_fold(segs.take(i as int), max_reply_chars as nat) == Ok::<PlanState, OutboundError>(
                PlanState { frames: frames_view(frames@), current: frame_view(current@), files: files_view(files@) },
            ),
        decreases n - i,
    {
        let seg = remaining.remove(0);
        proof {
            assert(seg == segs[i as int]);
            assert(remaining@ =~= segs.skip(i as int + 1));
            let t = segs.take(i as int + 1);
            assert(t.drop_last() =~= segs.take(i as int));
            assert(t.last() == segs[i as int]);
        }
        let ghost st = PlanState { frames: frames_view(frames@), current: frame_view(current@), files: files_view(files@) };
        let ghost gfiles = files_view(files@);
        match seg {
            SendSegment::Markdown(t) => {
                let plain = markdown_to_plain(t.as_str());
                let chunks = split_reply(plain.as_str(), max_reply_chars);
                push_chunks(&mut frames, &mut current, chunks, Ghost(gfiles));
            },
            SendSegment::Text(t) => {
                let chunks = split_reply(t.as_str(), max_reply_chars);
                push_chunks(&mut frames, &mut current, chunks, Ghost(gfiles));
            },
            SendSegment::Mention(u) => {
                current.push(WireSegment::At(u));
                assert(frame_view(current@) =~= st.current.push((1nat, u@)));
            },
            SendSegment::Image(b) => {
                if b.len() > MAX_OUTBOUND_IMAGE_BYTES {
                    proof {
                        assert(segments_fold(segs.take(i as int + 1), max_reply_chars as nat) == segment_step(
                            segments_fold(segs.take(i as int), max_reply_chars as nat),
                            segs[i as int],
                            max_reply_chars as nat,
                        ));
                        lemma_fold_stays_err(segs, i as int + 1, max_reply_chars as nat, OutboundError::ImageTooLarge);
                    }
                    return Err(OutboundError::ImageTooLarge);
                }
                let f = base64_source(&b);
                current.push(WireSegment::Image(f));
                assert(frame_view(current@) =~= st.current.push((2nat, image_file_spec(b@))));
            },
            SendSegment::ImageFile { path, bytes } => match bytes {
                Ok(b) => {
                    if !decodes_as_image(b.as_slice()) {
                        let ghost err = OutboundError::ImageUndecodable(path);
                        proof {
                            assert(segments_fold(segs.take(i as int + 1), max_reply_chars as nat) == segment_step(
                                segments_fold(segs.take(i as int), max_reply_chars as nat),
                                segs[i as int],
                                max_reply_chars as nat,
                            ));
                            lemma_fold_stays_err(segs, i as int + 1, max_reply_chars as nat, err);
                        }
                        return Err(OutboundError::ImageUndecodable(path));
                    }
                    let f = base64_source(&b);
                    current.push(WireSegment::Image(f));
                    assert(frame_view(current@) =~= st.current.push((2nat, image_file_spec(b@))));
                },
                Err(e) => {
                    let ghost err = OutboundError::ImageUnreadable(e);
                    proof {
                        assert(segments_fold(segs.take(i as int + 1), max_reply_chars as nat) == segment_step(
                            segments_fold(segs.take(i as int), max_reply_chars as nat),
                            segs[i as int],
                            max_reply_chars as nat,
                        ));
                        lemma_fold_stays_err(segs, i as int + 1, max_reply_chars as nat, err);
                    }
                    return Err(OutboundError::ImageUnreadable(e));
                },
            },
            SendSegment::File { path, name } => {
                let ghost entry = (path@, match &name {
                    Some(x) => Some(x@),
                    None => None::<Seq<char>>,
                });
                if current.len() > 0 {
                    let mut taken: Vec<WireSegment> = Vec::new();
                    std::mem::swap(&mut taken, &mut current);
                    frames.push(taken);
                    assert(frames_view(frames@) =~= st.frames.push(st.current));
                }
                assert(frame_view(current@) =~= Seq::<(nat, Seq<char>)>::empty());
                files.push((path, name));
                assert(files_view(files@) =~= st.files.push(entry));
            },
        }
        i = i + 1;
    }
    assert(segs.take(n as int) =~= segs);
    let ghost folded = PlanState { frames: frames_view(frames@), current: frame_view(current@), files: files_view(files@) };
    if current.len() > 0 {
        frames.push(current);
        assert(frames_view(frames@) =~= folded.frames.push(folded.current));
    }
    let ghost closed = frames_view(frames@);
    match (target, reply_to) {
        (Target::Group { .. }, Some(id)) => {
            if frames.len() > 0 {
                let mut first: Vec<WireSegment> = Vec::new();
                first.push(WireSegment::Reply(owned(id)));
                let ghost rest_frames = frames@.skip(1);
                let mut taken = frames.remove(0);
                assert(frames@ =~= rest_frames);
                let mut k: usize = 0;
                let ghost old_first = frame_view(taken@);
                let ghost raw = taken@;
                assert(old_first == closed[0]);
                let m = taken.len();
                assert(raw.skip(0) =~= raw);
                assert(frame_view(first@) =~= seq![(3nat, id@)] + old_first.take(0));
                while k < m
                    invariant
                        m == old_first.len() == raw.len(),
                        old_first == frame_view(raw),
                        taken@ == raw.skip(k as int),
                        k <= m,
                        frame_view(first@) == seq![(3nat, id@)] + old_first.take(k as int),
                    decreases m - k,
                {
                    let w = taken.remove(0);
                    assert(w == raw[k as int]);
                    assert(old_first[k as int] == wire_view(raw[k as int]));
                    assert(taken@ =~= raw.skip(k as int + 1));
                    let ghost before = first@;
                    let ghost wv = wire_view(w);
                    assert(wv == old_first[k as int]);
                    first.push(w);
                    assert(first@ =~= before.push(w));
                    assert(frame_view(first@) =~= frame_view(before).push(wv));
                    assert(frame_view(before).push(wv) =~= seq![(3nat, id@)] + old_first.take(k as int + 1));
                    k = k + 1;
                }
                assert(old_first.take(m as int) =~= old_first);
                frames.insert(0, first);
                assert(frames_view(frames@) =~= closed.update(0, seq![(3nat, id@)] + closed[0]));
            }
        },
        _ => {},
    }
    Ok(SendPlan { frames, files })
}

proof fn lemma_fold_stays_err(segs: Seq<SendSegment>, i: int, max: nat, e: OutboundError)
    requires
        0 <= i <= segs.len(),
        segments_fold(segs.take(i), max) == Err::<PlanState, OutboundError>(e),
    ensures
        segments_fold(segs, max) == Err::<PlanState, OutboundError>(e),
    decreases segs.len() - i,
{
    if i < segs.len() {
        let t = segs.take(i + 1);
        assert(t.drop_last() =~= segs.take(i));
        lemma_fold_stays_err(segs, i + 1, max, e);
    } else {
        assert(segs.take(i) =~= segs);
    }
}

/// A node of a forward message: who it shows as, and its segments.
pub struct ForwardNode {
    pub user_id: String,
    pub display_name: String,
    pub segments: Vec<SendSegment>,
}

/// A forward node as sent.
pub struct ForwardNodePlan {
    pub user_id: String,
    pub display_name: String,
    pub content: Vec<WireSegment>,
}

/// One segment of a forward node: text is flattened but not split, and a
/// file cannot be embedded.
pub open spec fn forward_step(st: Result<Seq<(nat, Seq<char>)>, OutboundError>, seg: SendSegment) -> Result<
    Seq<(nat, Seq<char>)>,
    OutboundError,
> {
    match st {
        Err(e) => Err(e),
        Ok(c) => match seg {
            SendSegment::Markdown(t) => Ok(c.push((0nat, markdown_to_plain_spec(t@)))),
            SendSegment::Text(t) => Ok(c.push((0nat, t@))),
            SendSegment::Mention(u) => Ok(c.push((1nat, u@))),
            SendSegment::Image(b) => if b@.len() > MAX_OUTBOUND_IMAGE_BYTES {
                Err(OutboundError::ImageTooLarge)
            } else {
                Ok(c.push((2nat, image_file_spec(b@))))
            },
            SendSegment::ImageFile { path, bytes } => match bytes {
                Ok(b) => if image_decodes(b@) {
                    Ok(c.push((2nat, image_file_spec(b@))))
                } else {
                    Err(OutboundError::ImageUndecodable(path))
                },
                Err(e) => Err(OutboundError::ImageUnreadable(e)),
            },
            SendSegment::File { .. } => Err(OutboundError::FileInForward),
        },
    }
}

pub open spec fn forward_content(segs: Seq<SendSegment>) -> Result<Seq<(nat, Seq<char>)>, OutboundError>
    decreases segs.len(),
{
    if segs.len() == 0 {
        Ok(Seq::empty())
    } else {
        forward_step(forward_content(segs.drop_last()), segs.last())
    }
}

/// A node as (user id, display name, content).
pub type NodeView = (Seq<char>, Seq<char>, Seq<(nat, Seq<char>)>);

pub open spec fn forward_nodes_fold(nodes: Seq<ForwardNode>) -> Result<Seq<NodeView>, OutboundError>
    decreases nodes.len(),
{
    if nodes.len() == 0 {
        Ok(Seq::empty())
    } else {
        match forward_nodes_fold(nodes.drop_last()) {
            Err(e) => Err(e),
            Ok(done) => match forward_content(nodes.last().segments@) {
                Err(e) => Err(e),
                Ok(c) => Ok(done.push((nodes.last().user_id@, nodes.last().display_name@, c))),
            },
        }
    }
}

/// The nodes of a forward message, or the first reason it cannot be sent.
pub open spec fn forward_plan_spec(nodes: Seq<ForwardNode>) -> Result<Seq<NodeView>, OutboundError> {
    if nodes.len() == 0 {
        Err(OutboundError::EmptyForward)
    } else {
        forward_nodes_fold(nodes)
    }
}

pub open spec fn node_view(n: ForwardNodePlan) -> NodeView {
    (n.user_id@, n.display_name@, frame_view(n.content@))
}

proof fn lemma_content_stays_err(segs: Seq<SendSegment>, i: int, e: OutboundError)
    requires
        0 <= i <= segs.len(),
        forward_content(segs.take(i)) == Err::<Seq<(nat, Seq<char>)>, OutboundError>(e),
    ensures
        forward_content(segs) == Err::<Seq<(nat, Seq<char>)>, OutboundError>(e),
    decreases segs.len() - i,
{
    if i < segs.len() {
        let t = segs.take(i + 1);
        assert(t.drop_last() =~= segs.take(i));
        lemma_content_stays_err(segs, i + 1, e);
    } else {
        assert(segs.take(i) =~= segs);
    }
}

proof fn lemma_nodes_stay_err(nodes: Seq<ForwardNode>, i: int, e: OutboundError)
    requires
        0 <= i <= nodes.len(),
        forward_nodes_fold(nodes.take(i)) == Err::<Seq<NodeView>, OutboundError>(e),
    ensures
        forward_nodes_fold(nodes) == Err::<Seq<NodeView>, OutboundError>(e),
    decreases nodes.len() - i,
{
    if i < nodes.len() {
        let t = nodes.take(i + 1);
        assert(t.drop_last() =~= nodes.take(i));
        lemma_nodes_stay_err(nodes, i + 1, e);
    } else {
        assert(nodes.take(i) =~= nodes);
    }
}

fn forward_node_content(segments: Vec<SendSegment>) -> (r: Result<Vec<WireSegment>, OutboundError>)
    ensures
        match forward_content(segments@) {
            Err(e) => r == Err::<Vec<WireSegment>, OutboundError>(e),
            Ok(c) => r matches Ok(v) && frame_view(v@) == c,
        },
{
    let ghost segs = segments@;
    let n = segments.len();
    let mut remaining = segments;
    let mut out: Vec<WireSegment> = Vec::new();
    let mut i: usize = 0;
    assert(segs.skip(0) =~= segs);
    assert(segs.take(0) =~= Seq::<SendSegment>::empty());
    assert(frame_view(out@) =~= Seq::<(nat, Seq<char>)>::empty());
    while i < n
        invariant
            n == segs.len(),
            segs == segments@,
            remaining@ == segs.skip(i as int),
            i <= n,
            forward_content(segs.take(i as int)) == Ok::<Seq<(nat, Seq<char>)>, OutboundError>(frame_view(out@)),
        decreases n - i,
    {
        let seg = remaining.remove(0);
        let ghost before = frame_view(out@);
        proof {
            assert(seg == segs[i as int]);
            assert(remaining@ =~= segs.skip(i as int + 1));
            let t = segs.take(i as int + 1);
            assert(t.drop_last() =~= segs.take(i as int));
            assert(t.last() == segs[i as int]);
            assert(forward_content(t) == forward_step(forward_content(segs.take(i as int)), segs[i as int]));
        }
        match seg {
            SendSegment::Markdown(t) => {
                let plain = markdown_to_plain(t.as_str());
                out.push(WireSegment::Text(plain));
                assert(frame_view(out@) =~= before.push((0nat, markdown_to_plain_spec(t@))));
            },
            SendSegment::Text(t) => {
                let ghost tv = t@;
                out.push(WireSegment::Text(t));
                assert(frame_view(out@) =~= before.push((0nat, tv)));
            },
            SendSegment::Mention(u) => {
                let ghost uv = u@;
                out.push(WireSegment::At(u));
                assert(frame_view(out@) =~= before.push((1nat, uv)));
            },
            SendSegment::Image(b) => {
                if b.len() > MAX_OUTBOUND_IMAGE_BYTES {
                    proof {
                        lemma_content_stays_err(segs, i as int + 1, OutboundError::ImageTooLarge);
                    }
                    return Err(OutboundError::ImageTooLarge);
                }
                let f = base64_source(&b);
                out.push(WireSegment::Image(f));
                assert(frame_view(out@) =~= before.push((2nat, image_file_spec(b@))));
            },
            SendSegment::ImageFile { path, bytes } => match bytes {
                Ok(b) => {
                    if !decodes_as_image(b.as_slice()) {
                        let ghost err = OutboundError::ImageUndecodable(path);
                        proof {
                            lemma_content_stays_err(segs, i as int + 1, err);
                        }
                        return Err(OutboundError::ImageUndecodable(path));
                    }
                    let f = base64_source(&b);
                    out.push(WireSegment::Image(f));
                    assert(frame_view(out@) =~= before.push((2nat, image_file_spec(b@))));
                },
                Err(e) => {
                    let ghost err = OutboundError::ImageUnreadable(e);
                    proof {
                        lemma_content_stays_err(segs, i as int + 1, err);
                    }
                    return Err(OutboundError::ImageUnreadable(e));
                },
            },
            SendSegment::File { .. } => {
                proof {
                    lemma_content_stays_err(segs, i as int + 1, OutboundError::FileInForward);
                }
                return Err(OutboundError::FileInForward);
            },
        }
        i = i + 1;
    }
    assert(segs.take(n as int) =~= segs);
    Ok(out)
}

/// Plans a forward message: each node's segments as content, in order.
pub fn plan_forward(nodes: Vec<ForwardNode>) -> (r: Result<Vec<ForwardNodePlan>, OutboundError>)
    ensures
        match forward_plan_spec(nodes@) {
            Err(e) => r == Err::<Vec<ForwardNodePlan>, OutboundError>(e),
            Ok(v) => r matches Ok(p) && p@.map_values(|n: ForwardNodePlan| node_view(n)) == v,
        },
{
    if nodes.len() == 0 {
        return Err(OutboundError::EmptyForward);
    }
    let ghost all = nodes@;
    let n = nodes.len();
    let mut remaining = nodes;
    let mut out: Vec<ForwardNodePlan> = Vec::new();
    let mut i: usize = 0;
    assert(all.skip(0) =~= all);
    assert(all.take(0) =~= Seq::<ForwardNode>::empty());
    assert(out@.map_values(|n: ForwardNodePlan| node_view(n)) =~= Seq::<NodeView>::empty());
    while i < n
        invariant
            n == all.len(),
            all == nodes@,
            remaining@ == all.skip(i as int),
            i <= n,
            forward_nodes_fold(all.take(i as int)) == Ok::<Seq<NodeView>, OutboundError>(
                out@.map_values(|n: ForwardNodePlan| node_view(n)),
            ),
        decreases n - i,
    {
        let node = remaining.remove(0);
        let ghost before = out@.map_values(|n: ForwardNodePlan| node_view(n));
        proof {
            assert(node == all[i as int]);
            assert(remaining@ =~= all.skip(i as int + 1));
            let t = all.take(i as int + 1);
            assert(t.drop_last() =~= all.take(i as int));
            assert(t.last() == all[i as int]);
        }
        let ForwardNode { user_id, display_name, segments } = node;
        match forward_node_content(segments) {
            Err(e) => {
                proof {
                    lemma_nodes_stay_err(all, i as int + 1, e);
                }
                return Err(e);
            },
            Ok(content) => {
                let ghost v = (user_id@, display_name@, frame_view(content@));
                out.push(ForwardNodePlan { user_id, display_name, content });
                assert(out@.map_values(|n: ForwardNodePlan| node_view(n)) =~= before.push(v));
            },
        }
        i = i + 1;
    }
    assert(all.take(n as int) =~= all);
    Ok(out)
}

/// The OneBot action that sends a message to `target`.
pub fn message_action(target: Target) -> (r: &'static str)
    ensures
        r@ == match target {
            Target::Private { .. } => "send_private_msg"@,
            Target::Group { .. } => "send_group_msg"@,
        },
{
    match target {
        Target::Private { .. } => "send_private_msg",
        Target::Group { .. } => "send_group_msg",
    }
}

/// The OneBot action that sends a forward message to `target`.
pub fn forward_action(target: Target) -> (r: &'static str)
    ensures
        r@ == match target {
            Target::Private { .. } => "send_private_forward_msg"@,
            Target::Group { .. } => "send_group_forward_msg"@,
        },
{
    match target {
        Target::Private { .. } => "send_private_forward_msg",
        Target::Group { .. } => "send_group_forward_msg",
    }
}

/// The OneBot action that uploads a file to `target`.
pub fn upload_action(target: Target) -> (r: &'static str)
    ensures
        r@ == match target {
            Target::Private { .. } => "upload_private_file"@,
            Target::Group { .. } => "upload_group_file"@,
        },
{
    match target {
        Target::Private { .. } => "upload_private_file",
        Target::Group { .. } => "upload_group_file",
    }
}

/// Why a file cannot be uploaded.
#[derive(PartialEq, Eq, Structural, Debug, Clone, Copy)]
pub enum UploadError {
    /// Not a regular file.
    NotAFile,
    /// Over `MAX_OUTBOUND_FILE_BYTES`.
    TooLarge,
    /// The temporary URL failed and the file is over the base64 limit.
    FallbackTooLarge,
}

/// Checks a file before upload.
pub fn check_upload(is_file: bool, len: u64) -> (r: Result<(), UploadError>)
    ensures
        r == if !is_file {
            Err::<(), UploadError>(UploadError::NotAFile)
        } else if len > MAX_OUTBOUND_FILE_BYTES {
            Err::<(), UploadError>(UploadError::TooLarge)
        } else {
            Ok::<(), UploadError>(())
        },
{
    if !is_file {
        Err(UploadError::NotAFile)
    } else if len > MAX_OUTBOUND_FILE_BYTES {
        Err(UploadError::TooLarge)
    } else {
        Ok(())
    }
}

/// Whether a file may go inline as base64 once its temporary URL failed.
pub fn check_base64_fallback(len: u64) -> (r: Result<(), UploadError>)
    ensures
        r == if len > MAX_BASE64_FILE_BYTES {
            Err::<(), UploadError>(UploadError::FallbackTooLarge)
        } else {
            Ok::<(), UploadError>(())
        },
{
    if len > MAX_BASE64_FILE_BYTES {
        Err(UploadError::FallbackTooLarge)
    } else {
        Ok(())
    }
}

/// The name a file is uploaded under: the given name trimmed, else the
/// path's file name, else `file`, made safe.
pub open spec fn upload_name_spec(name: Option<Seq<char>>, path: Seq<char>) -> Seq<char> {
    let chosen = match name {
        Some(n) => if trim(n).len() > 0 {
            trim(n)
        } else {
            match file_name_of(path) {
                Some(f) => f,
                None => "file"@,
            }
        },
        None => match file_name_of(path) {
            Some(f) => f,
            None => "file"@,
        },
    };
    sanitize_file_name_spec(chosen)
}

pub fn upload_name(name: Option<&str>, path: &str) -> (r: String)
    ensures
        r@ == upload_name_spec(match name {
            Some(n) => Some(n@),
            None => None,
        }, path@),
{
    let mut chosen: Vec<char> = Vec::new();
    let mut given = false;
    match name {
        Some(n) => {
            let v = chars_of(n);
            let (lo, hi) = trim_bounds(&v, 0, v.len());
            assert(v@.subrange(0, v@.len() as int) =~= v@);
            if lo < hi {
                push_range(&mut chosen, &v, lo, hi);
                given = true;
            }
        },
        None => {},
    }
    if !given {
        match file_name(path) {
            Some(f) => push_all(&mut chosen, &f),
            None => push_str(&mut chosen, "file"),
        }
    }
    sanitize_file_name(string_of(&chosen).as_str())
}

/// A segment of an outbound message, as the platform-neutral pipeline
/// and its plugins see it.
pub enum OutboundSegment {
    Markdown(String),
    Text(String),
    Mention(String),
    ImageBytes { mime: String, data: Vec<u8>, alt: String },
    ImagePath { path: String, alt: String },
    FilePath { path: String, name: Option<String> },
}

/// A node of a forward message as the pipeline sees it.
pub struct OutboundForwardNode {
    pub user_id: String,
    pub display_name: String,
    pub segments: Vec<OutboundSegment>,
}

/// The body of an outbound message: plain segments or forward nodes.
pub enum OutboundBody {
    Segments(Vec<OutboundSegment>),
    Forward(Vec<OutboundForwardNode>),
}

/// Where an outbound message comes from.
#[derive(PartialEq, Eq, Structural, Debug, Clone, Copy)]
pub enum OutboundOrigin {
    FinalReply,
    IntermediateReply,
    Tool,
    Command,
    Plugin,
}

/// A message on its way out.
pub struct OutboundMessage {
    pub body: OutboundBody,
    pub reply_to: Option<String>,
    pub origin: OutboundOrigin,
}

/// An image asset of a turn, loaded by the host.
pub struct LoadedImage {
    pub mime: String,
    pub data: Vec<u8>,
    pub alt: String,
}

/// What a finished platform turn sends back.
pub enum Delivery {
    /// A notice sent past the plugins.
    Notice(String),
    /// The final reply, through the plugins.
    Reply(Vec<OutboundSegment>),
    /// Nothing: a direct send already answered.
    Nothing,
}

/// The segment as (kind, text, bytes, label): 0 markdown, 1 text, 2 image
/// with its MIME type and alt text, 3 mention, 4 image path with its alt
/// text, 5 file path with its display name.
pub open spec fn outbound_view(s: OutboundSegment) -> (nat, Seq<char>, Seq<u8>, Option<Seq<char>>) {
    match s {
        OutboundSegment::Markdown(t) => (0, t@, Seq::empty(), None),
        OutboundSegment::Text(t) => (1, t@, Seq::empty(), None),
        OutboundSegment::ImageBytes { mime, data, alt } => (2, mime@, data@, Some(alt@)),
        OutboundSegment::Mention(u) => (3, u@, Seq::empty(), None),
        OutboundSegment::ImagePath { path, alt } => (4, path@, Seq::empty(), Some(alt@)),
        OutboundSegment::FilePath { path, name } => (5, path@, Seq::empty(), match name {
            Some(n) => Some(n@),
            None => None,
        }),
    }
}

/// The loaded images as reply segments, in order.
pub open spec fn loaded_images(images: Seq<Option<LoadedImage>>) -> Seq<(nat, Seq<char>, Seq<u8>, Option<Seq<char>>)>
    decreases images.len(),
{
    if images.len() == 0 {
        Seq::empty()
    } else {
        let rest = loaded_images(images.drop_last());
        match images.last() {
            Some(i) => rest.push((2nat, i.mime@, i.data@, Some(i.alt@))),
            None => rest,
        }
    }
}

/// What a turn's outcome delivers: a queued message gets a notice, a
/// failure its message; a completed turn its reply text (when not blank)
/// and its images, or, with neither, a placeholder unless a direct send
/// already answered.
pub open spec fn delivery_spec(
    dispatch: crate::platforms::turn::TurnDispatch,
    images: Seq<Option<LoadedImage>>,
    lang: Language,
) -> Option<Result<Seq<char>, Seq<(nat, Seq<char>, Seq<u8>, Option<Seq<char>>)>>> {
    match dispatch {
        crate::platforms::turn::TurnDispatch::Queued => Some(
            Ok(
                tr(
                    lang,
                    "Got it — still finishing the previous message; I'll reply to both together."@,
                    "收到，上一条还在处理中，稍后一起回复。"@,
                ),
            ),
        ),
        crate::platforms::turn::TurnDispatch::Failed(m) => Some(
            Ok(tr(lang, "Something went wrong: "@, "出错了："@) + m@),
        ),
        crate::platforms::turn::TurnDispatch::Completed(o) => {
            let reply = crate::platforms::final_reply_spec(o.text@, o.suppressed_reply_ranges@);
            let segs = if trim(reply).len() > 0 {
                seq![(0nat, reply, Seq::<u8>::empty(), None::<Seq<char>>)] + loaded_images(images)
            } else {
                loaded_images(images)
            };
            if segs.len() > 0 {
                Some(Err(segs))
            } else if o.final_reply_already_sent {
                None
            } else {
                Some(
                    Err(
                        seq![
                            (1nat, tr(lang, "(this turn produced no text reply)"@, "（这一轮没有产生文本回复）"@), Seq::<u8>::empty(), None::<Seq<char>>),
                        ],
                    ),
                )
            }
        },
    }
}

pub open spec fn delivery_view(d: Delivery) -> Option<Result<Seq<char>, Seq<(nat, Seq<char>, Seq<u8>, Option<Seq<char>>)>>> {
    match d {
        Delivery::Notice(t) => Some(Ok(t@)),
        Delivery::Reply(v) => Some(Err(v@.map_values(|s: OutboundSegment| outbound_view(s)))),
        Delivery::Nothing => None,
    }
}

/// What a finished turn sends, its image assets loaded by the host
/// (`None` for one that is gone or failed to load).
pub fn delivery(dispatch: crate::platforms::turn::TurnDispatch, images: Vec<Option<LoadedImage>>, lang: Language) -> (r:
    Delivery)
    ensures
        delivery_view(r) == delivery_spec(dispatch, images@, lang),
{
    match dispatch {
        crate::platforms::turn::TurnDispatch::Queued => Delivery::Notice(
            owned(
                text(
                    lang,
                    "Got it — still finishing the previous message; I'll reply to both together.",
                    "收到，上一条还在处理中，稍后一起回复。",
                ),
            ),
        ),
        crate::platforms::turn::TurnDispatch::Failed(m) => {
            let mut v: Vec<char> = Vec::new();
            push_str(&mut v, text(lang, "Something went wrong: ", "出错了："));
            push_str(&mut v, m.as_str());
            Delivery::Notice(string_of(&v))
        },
        crate::platforms::turn::TurnDispatch::Completed(o) => {
            let reply = crate::platforms::final_reply_text(&o);
            let rv = chars_of(reply.as_str());
            let (lo, hi) = trim_bounds(&rv, 0, rv.len());
            assert(rv@.subrange(0, rv@.len() as int) =~= rv@);
            let ghost imgs = images@;
            let mut segs: Vec<OutboundSegment> = Vec::new();
            if lo < hi {
                segs.push(OutboundSegment::Markdown(reply));
            }
            let ghost head = segs@.map_values(|s: OutboundSegment| outbound_view(s));
            let n = images.len();
            let mut remaining = images;
            let mut i: usize = 0;
            assert(imgs.skip(0) =~= imgs);
            assert(imgs.take(0) =~= Seq::<Option<LoadedImage>>::empty());
            assert(segs@.map_values(|s: OutboundSegment| outbound_view(s)) =~= head + loaded_images(imgs.take(0)));
            while i < n
                invariant
                    n == imgs.len(),
                    remaining@ == imgs.skip(i as int),
                    i <= n,
                    segs@.map_values(|s: OutboundSegment| outbound_view(s)) == head + loaded_images(imgs.take(i as int)),
                decreases n - i,
            {
                let item = remaining.remove(0);
                let ghost before = segs@.map_values(|s: OutboundSegment| outbound_view(s));
                proof {
                    assert(item == imgs[i as int]);
                    assert(remaining@ =~= imgs.skip(i as int + 1));
                    let t = imgs.take(i as int + 1);
                    assert(t.drop_last() =~= imgs.take(i as int));
                    assert(t.last() == imgs[i as int]);
                }
                match item {
                    Some(img) => {
                        let ghost v = (2nat, img.mime@, img.data@, Some(img.alt@));
                        segs.push(OutboundSegment::ImageBytes { mime: img.mime, data: img.data, alt: img.alt });
                        assert(segs@.map_values(|s: OutboundSegment| outbound_view(s)) =~= before.push(v));
                        assert(head + loaded_images(imgs.take(i as int + 1)) =~= (head + loaded_images(imgs.take(i as int))).push(v));
                    },
                    None => {},
                }
                i = i + 1;
            }
            assert(imgs.take(n as int) =~= imgs);
            proof {
                if lo < hi {
                    assert(head =~= seq![(0nat, reply@, Seq::<u8>::empty(), None::<Seq<char>>)]);
                } else {
                    assert(head =~= Seq::<(nat, Seq<char>, Seq<u8>, Option<Seq<char>>)>::empty());
                    assert(head + loaded_images(imgs) =~= loaded_images(imgs));
                }
            }
            if segs.len() > 0 {
                Delivery::Reply(segs)
            } else if o.final_reply_already_sent {
                Delivery::Nothing
            } else {
                let mut only: Vec<OutboundSegment> = Vec::new();
                only.push(
                    OutboundSegment::Text(
                        owned(text(lang, "(this turn produced no text reply)", "（这一轮没有产生文本回复）")),
                    ),
                );
                let ghost t = tr(lang, "(this turn produced no text reply)"@, "（这一轮没有产生文本回复）"@);
                assert(only@.map_values(|s: OutboundSegment| outbound_view(s)) =~= seq![(1nat, t, Seq::<u8>::empty(), None::<Seq<char>>)]);
                Delivery::Reply(only)
            }
        },
    }
}

} // verus!
