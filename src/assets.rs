//! Static assets: the content type of a file name, the normalization of a
//! requested path into plain segments (refusing any that would climb out
//! of a root), the ordered list of files to try, and the response chosen
//! from what reading them gave.
use vstd::prelude::*;

use crate::bytes::{
    ascii_bytes, ascii_of, bytes_eq, copy_range, ends_with, has_suffix, split, split_bytes, views,
};

verus! {

/// The byte `/`.
pub const SLASH: u8 = 47;

/// The byte `.`.
pub const DOT: u8 = 46;

/// The kinds of content the server sends, each with its MIME type.
#[derive(Clone, Copy, Debug, PartialEq, Eq, Structural)]
pub enum ContentKind {
    Html,
    JavaScript,
    Css,
    Json,
    Png,
    Jpeg,
    Svg,
    Woff,
    Woff2,
    PlainText,
    OctetStream,
}

impl ContentKind {
    /// The MIME type of this kind.
    pub open spec fn mime_spec(self) -> Seq<char> {
        match self {
            ContentKind::Html => "text/html; charset=utf-8"@,
            ContentKind::JavaScript => "application/javascript; charset=utf-8"@,
            ContentKind::Css => "text/css; charset=utf-8"@,
            ContentKind::Json => "application/json; charset=utf-8"@,
            ContentKind::Png => "image/png"@,
            ContentKind::Jpeg => "image/jpeg"@,
            ContentKind::Svg => "image/svg+xml"@,
            ContentKind::Woff => "font/woff"@,
            ContentKind::Woff2 => "font/woff2"@,
            ContentKind::PlainText => "text/plain; charset=utf-8"@,
            ContentKind::OctetStream => "application/octet-stream"@,
        }
    }

    /// The MIME type of this kind, for a `Content-Type` header.
    pub fn mime(&self) -> (r: &'static str)
        ensures
            r@ == self.mime_spec(),
    {
        match self {
            ContentKind::Html => "text/html; charset=utf-8",
            ContentKind::JavaScript => "application/javascript; charset=utf-8",
            ContentKind::Css => "text/css; charset=utf-8",
            ContentKind::Json => "application/json; charset=utf-8",
            ContentKind::Png => "image/png",
            ContentKind::Jpeg => "image/jpeg",
            ContentKind::Svg => "image/svg+xml",
            ContentKind::Woff => "font/woff",
            ContentKind::Woff2 => "font/woff2",
            ContentKind::PlainText => "text/plain; charset=utf-8",
            ContentKind::OctetStream => "application/octet-stream",
        }
    }
}

/// The content kind of a file name, by its extension (case-sensitive);
/// any other extension is an octet stream.
pub open spec fn kind_of_name(name: Seq<u8>) -> ContentKind {
    if ends_with(name, ascii_of(".html"@)) {
        ContentKind::Html
    } else if ends_with(name, ascii_of(".js"@)) {
        ContentKind::JavaScript
    } else if ends_with(name, ascii_of(".css"@)) {
        ContentKind::Css
    } else if ends_with(name, ascii_of(".json"@)) {
        ContentKind::Json
    } else if ends_with(name, ascii_of(".png"@)) {
        ContentKind::Png
    } else if ends_with(name, ascii_of(".jpg"@)) || ends_with(name, ascii_of(".jpeg"@)) {
        ContentKind::Jpeg
    } else if ends_with(name, ascii_of(".svg"@)) {
        ContentKind::Svg
    } else if ends_with(name, ascii_of(".woff"@)) {
        ContentKind::Woff
    } else if ends_with(name, ascii_of(".woff2"@)) {
        ContentKind::Woff2
    } else {
        ContentKind::OctetStream
    }
}

/// Whether `name` ends with the ASCII string `ext`.
fn has_extension(name: &[u8], ext: &str) -> (r: bool)
    requires
        ext.is_ascii(),
    ensures
        r == ends_with(name@, ascii_of(ext@)),
{
    let e = ascii_bytes(ext);
    has_suffix(name, e.as_slice())
}

/// The content kind of a file name (see `kind_of_name`).
pub fn content_kind(name: &[u8]) -> (r: ContentKind)
    ensures
        r == kind_of_name(name@),
{
    proof {
        reveal_strlit(".html");
        reveal_strlit(".js");
        reveal_strlit(".css");
        reveal_strlit(".json");
        reveal_strlit(".png");
        reveal_strlit(".jpg");
        reveal_strlit(".jpeg");
        reveal_strlit(".svg");
        reveal_strlit(".woff");
        reveal_strlit(".woff2");
    }
    if has_extension(name, ".html") {
        ContentKind::Html
    } else if has_extension(name, ".js") {
        ContentKind::JavaScript
    } else if has_extension(name, ".css") {
        ContentKind::Css
    } else if has_extension(name, ".json") {
        ContentKind::Json
    } else if has_extension(name, ".png") {
        ContentKind::Png
    } else if has_extension(name, ".jpg") || has_extension(name, ".jpeg") {
        ContentKind::Jpeg
    } else if has_extension(name, ".svg") {
        ContentKind::Svg
    } else if has_extension(name, ".woff") {
        ContentKind::Woff
    } else if has_extension(name, ".woff2") {
        ContentKind::Woff2
    } else {
        ContentKind::OctetStream
    }
}

/// Bytes that a file system may read as a separator or a drive (`\`, `:`)
/// or that end a path early (NUL); a segment holding one is refused.
pub open spec fn is_forbidden(b: u8) -> bool {
    b == 92 || b == 58 || b == 0
}

/// Whether a segment holds a forbidden byte.
pub open spec fn has_forbidden(seg: Seq<u8>) -> bool {
    exists|i: int| 0 <= i < seg.len() && is_forbidden(#[trigger] seg[i])
}

/// The segment `.`.
pub open spec fn dot_segment() -> Seq<u8> {
    seq![DOT]
}

/// The segment `..`.
pub open spec fn dotdot_segment() -> Seq<u8> {
    seq![DOT, DOT]
}

/// A segment that names an entry inside its directory: not empty, not `.`
/// or `..`, without `/` and without a forbidden byte.
pub open spec fn is_plain(seg: Seq<u8>) -> bool {
    seg.len() > 0 && seg != dot_segment() && seg != dotdot_segment() && !seg.contains(SLASH)
        && !has_forbidden(seg)
}

/// Whether every segment is plain.
pub open spec fn all_plain(segs: Seq<Seq<u8>>) -> bool {
    forall|i: int| 0 <= i < segs.len() ==> is_plain(#[trigger] segs[i])
}

/// One step of normalization: empty and `.` segments vanish, `..` drops the
/// last kept segment (and fails when there is none: the path would leave
/// its root), a segment with a forbidden byte fails, any other is kept.
pub open spec fn push_segment(acc: Option<Seq<Seq<u8>>>, seg: Seq<u8>) -> Option<Seq<Seq<u8>>> {
    match acc {
        None => None,
        Some(st) => if seg.len() == 0 || seg == dot_segment() {
            Some(st)
        } else if seg == dotdot_segment() {
            if st.len() == 0 {
                None
            } else {
                Some(st.drop_last())
            }
        } else if has_forbidden(seg) {
            None
        } else {
            Some(st.push(seg))
        },
    }
}

/// The segments that remain after normalizing `segs` from left to right,
/// or `None` where a `..` would leave the root or a segment is refused.
pub open spec fn normalize(segs: Seq<Seq<u8>>) -> Option<Seq<Seq<u8>>>
    decreases segs.len(),
{
    if segs.len() == 0 {
        Some(Seq::empty())
    } else {
        push_segment(normalize(segs.drop_last()), segs.last())
    }
}

/// A request path without its one leading `/`.
pub open spec fn strip_slash(path: Seq<u8>) -> Seq<u8> {
    if path.len() > 0 && path[0] == SLASH {
        path.drop_first()
    } else {
        path
    }
}

/// The normalized segments of a request path.
pub open spec fn path_segments(path: Seq<u8>) -> Option<Seq<Seq<u8>>> {
    normalize(split(strip_slash(path), SLASH))
}

/// What normalization keeps is plain, given pieces without `/`.
pub proof fn lemma_normalize_plain(segs: Seq<Seq<u8>>)
    requires
        forall|i: int| 0 <= i < segs.len() ==> !(#[trigger] segs[i]).contains(SLASH),
    ensures
        normalize(segs) matches Some(st) ==> all_plain(st),
    decreases segs.len(),
{
    if segs.len() > 0 {
        let init = segs.drop_last();
        assert forall|i: int| 0 <= i < init.len() implies !(#[trigger] init[i]).contains(SLASH) by {
            assert(init[i] == segs[i]);
        }
        lemma_normalize_plain(init);
        assert(!segs.last().contains(SLASH));
        if let Some(st) = normalize(init) {
            let seg = segs.last();
            if seg.len() == 0 || seg == dot_segment() {
            } else if seg == dotdot_segment() {
                if st.len() > 0 {
                    assert forall|i: int| 0 <= i < st.drop_last().len() implies is_plain(
                        #[trigger] st.drop_last()[i],
                    ) by {
                        assert(st.drop_last()[i] == st[i]);
                    }
                }
            } else if !has_forbidden(seg) {
                assert forall|i: int| 0 <= i < st.push(seg).len() implies is_plain(
                    #[trigger] st.push(seg)[i],
                ) by {
                    if i < st.len() {
                        assert(st.push(seg)[i] == st[i]);
                    }
                }
            }
        }
    }
}

/// The normalized segments of any request path are plain.
pub proof fn lemma_path_segments_plain(path: Seq<u8>)
    ensures
        path_segments(path) matches Some(st) ==> all_plain(st),
{
    crate::bytes::lemma_split_pieces(strip_slash(path), SLASH);
    lemma_normalize_plain(split(strip_slash(path), SLASH));
}

/// Whether a normalization result, if any, is all plain.
pub open spec fn all_plain_if_some(r: Option<Seq<Seq<u8>>>) -> bool {
    r matches Some(st) ==> all_plain(st)
}

/// The normalized segments of a request path, when it stays inside its root.
pub fn normalize_path(path: &[u8]) -> (r: Option<Vec<Vec<u8>>>)
    ensures
        r matches Some(v) ==> path_segments(path@) == Some(views(v@)),
        r is None ==> path_segments(path@) is None,
        r matches Some(v) ==> all_plain(views(v@)),
{
    let rel_start: usize = if path.len() > 0 && path[0] == SLASH {
        1
    } else {
        0
    };
    let rel = copy_range(path, rel_start, path.len());
    assert(rel@ =~= strip_slash(path@));
    let pieces = split_bytes(rel.as_slice(), SLASH);
    let ghost pv = views(pieces@);
    proof {
        crate::bytes::lemma_split_pieces(rel@, SLASH);
        lemma_normalize_plain(pv);
    }
    let dot = vec![DOT];
    let dotdot = vec![DOT, DOT];
    assert(dot@ =~= dot_segment());
    assert(dotdot@ =~= dotdot_segment());
    let mut st: Vec<Vec<u8>> = Vec::new();
    let mut i: usize = 0;
    while i < pieces.len()
        invariant
            pv == views(pieces@),
            pv == split(rel@, SLASH),
            rel@ == strip_slash(path@),
            all_plain_if_some(normalize(pv)),
            dot@ == dot_segment(),
            dotdot@ == dotdot_segment(),
            i <= pieces@.len(),
            normalize(pv.subrange(0, i as int)) == Some(views(st@)),
        decreases pieces@.len() - i,
    {
        let seg = &pieces[i];
        let ghost prev = views(st@);
        proof {
            assert(pv.subrange(0, i as int + 1).drop_last() =~= pv.subrange(0, i as int));
            assert(pv.subrange(0, i as int + 1).last() == seg@);
        }
        if seg.len() == 0 || bytes_eq(seg.as_slice(), dot.as_slice()) {
        } else if bytes_eq(seg.as_slice(), dotdot.as_slice()) {
            if st.len() == 0 {
                proof {
                    assert(normalize(pv.subrange(0, i as int + 1)) is None);
                    lemma_normalize_none(pv, i as int + 1);
                    assert(pv.subrange(0, pv.len() as int) =~= pv);
                    assert(path_segments(path@) == normalize(pv));
                }
                return None;
            }
            st.pop();
            assert(views(st@) =~= prev.drop_last());
        } else if segment_has_forbidden(seg.as_slice()) {
            proof {
                assert(normalize(pv.subrange(0, i as int + 1)) is None);
                lemma_normalize_none(pv, i as int + 1);
                assert(pv.subrange(0, pv.len() as int) =~= pv);
                assert(path_segments(path@) == normalize(pv));
            }
            return None;
        } else {
            let copy = copy_range(seg.as_slice(), 0, seg.len());
            assert(copy@ =~= seg@);
            st.push(copy);
            assert(views(st@) =~= prev.push(seg@));
        }
        i += 1;
    }
    assert(pv.subrange(0, pv.len() as int) =~= pv);
    Some(st)
}

/// Once normalization fails it stays failed.
pub proof fn lemma_normalize_none(segs: Seq<Seq<u8>>, k: int)
    requires
        0 <= k <= segs.len(),
        normalize(segs.subrange(0, k)) is None,
    ensures
        normalize(segs) is None,
    decreases segs.len() - k,
{
    if k < segs.len() {
        assert(segs.subrange(0, k + 1).drop_last() =~= segs.subrange(0, k));
        lemma_normalize_none(segs, k + 1);
    } else {
        assert(segs.subrange(0, k) =~= segs);
    }
}

fn segment_has_forbidden(seg: &[u8]) -> (r: bool)
    ensures
        r == has_forbidden(seg@),
{
    let mut i: usize = 0;
    while i < seg.len()
        invariant
            i <= seg@.len(),
            forall|j: int| 0 <= j < i ==> !is_forbidden(#[trigger] seg@[j]),
        decreases seg@.len() - i,
    {
        let b = seg[i];
        if b == 92 || b == 58 || b == 0 {
            return true;
        }
        i += 1;
    }
    false
}

/// A copy of a segment list.
pub fn copy_segments(v: &Vec<Vec<u8>>) -> (r: Vec<Vec<u8>>)
    ensures
        views(r@) == views(v@),
{
    let mut out: Vec<Vec<u8>> = Vec::new();
    let mut i: usize = 0;
    while i < v.len()
        invariant
            i <= v@.len(),
            views(out@) =~= views(v@).subrange(0, i as int),
        decreases v@.len() - i,
    {
        let s = &v[i];
        let ghost prev = out@;
        let c = copy_range(s.as_slice(), 0, s.len());
        assert(c@ =~= s@);
        out.push(c);
        assert(views(out@) =~= views(prev).push(s@));
        i += 1;
    }
    out
}

/// An asset to look for: the plain segments of its path below a root, and
/// the kind of content it is served as.
#[derive(Clone, Debug, PartialEq, Eq)]
pub struct AssetRequest {
    pub segments: Vec<Vec<u8>>,
    pub kind: ContentKind,
}

impl AssetRequest {
    /// The segments, as sequences.
    pub open spec fn segments_view(&self) -> Seq<Seq<u8>> {
        views(self.segments@)
    }
}

/// The segments an asset request looks for: those of the path, or those of
/// the index document when the path names nothing (empty, `/`, or all
/// climbed back).
pub open spec fn target_segments(st: Seq<Seq<u8>>, index: Seq<Seq<u8>>) -> Seq<Seq<u8>> {
    if st.len() == 0 {
        index
    } else {
        st
    }
}

/// The content kind of a file given by its segments: that of its last one.
pub open spec fn kind_of_segments(segs: Seq<Seq<u8>>) -> ContentKind {
    if segs.len() == 0 {
        ContentKind::OctetStream
    } else {
        kind_of_name(segs.last())
    }
}

/// The content kind of a file given by its segments.
pub fn segments_kind(segs: &Vec<Vec<u8>>) -> (r: ContentKind)
    ensures
        r == kind_of_segments(views(segs@)),
{
    if segs.len() == 0 {
        ContentKind::OctetStream
    } else {
        content_kind(segs[segs.len() - 1].as_slice())
    }
}

/// The asset request of a request path, or `None` where it would leave its
/// root.
pub fn asset_request(path: &[u8], index: &Vec<Vec<u8>>) -> (r: Option<AssetRequest>)
    ensures
        path_segments(path@) is None <==> r is None,
        r matches Some(a) ==> a.segments_view() == target_segments(
            path_segments(path@)->Some_0,
            views(index@),
        ),
        r matches Some(a) ==> a.kind == kind_of_segments(a.segments_view()),
{
    match normalize_path(path) {
        None => None,
        Some(st) => {
            let segments = if st.len() == 0 {
                copy_segments(index)
            } else {
                st
            };
            let kind = segments_kind(&segments);
            Some(AssetRequest { segments, kind })
        },
    }
}

/// One file to try: the segments below root number `root`; `fallback` marks
/// the index document tried when the asset itself is found nowhere.
#[derive(Clone, Debug, PartialEq, Eq)]
pub struct Candidate {
    pub root: usize,
    pub segments: Vec<Vec<u8>>,
    pub fallback: bool,
}

/// The files to try, in order: the asset in each root, then the index
/// document in each root.
pub open spec fn candidate_ok(
    c: Candidate,
    k: int,
    root_count: int,
    asset: Seq<Seq<u8>>,
    index: Seq<Seq<u8>>,
) -> bool {
    if k < root_count {
        c.root == k && !c.fallback && views(c.segments@) == asset
    } else {
        c.root == k - root_count && c.fallback && views(c.segments@) == index
    }
}

/// The ordered list of files to try for an asset (see `candidate_ok`).
pub fn candidates(root_count: usize, asset: &AssetRequest, index: &Vec<Vec<u8>>) -> (r: Vec<
    Candidate,
>)
    requires
        root_count <= usize::MAX / 2,
    ensures
        r@.len() == 2 * root_count,
        forall|k: int|
            0 <= k < r@.len() ==> candidate_ok(
                #[trigger] r@[k],
                k,
                root_count as int,
                asset.segments_view(),
                views(index@),
            ),
{
    let mut out: Vec<Candidate> = Vec::new();
    let mut k: usize = 0;
    while k < 2 * root_count
        invariant
            root_count <= usize::MAX / 2,
            k <= 2 * root_count,
            out@.len() == k,
            forall|j: int|
                0 <= j < k ==> candidate_ok(
                    #[trigger] out@[j],
                    j,
                    root_count as int,
                    asset.segments_view(),
                    views(index@),
                ),
        decreases 2 * root_count - k,
    {
        let c = if k < root_count {
            Candidate { root: k, segments: copy_segments(&asset.segments), fallback: false }
        } else {
            Candidate { root: k - root_count, segments: copy_segments(index), fallback: true }
        };
        out.push(c);
        k += 1;
    }
    out
}

/// What a response body is.
#[derive(Clone, Debug, PartialEq, Eq)]
pub enum Body {
    /// The page served on the callback route (see `callback_page`).
    CallbackPage,
    /// The plain-text body of a 404.
    NotFound,
    /// The bytes of a file that was read.
    File(Vec<u8>),
}

/// A response: status code, content kind and body.
#[derive(Clone, Debug, PartialEq, Eq)]
pub struct Response {
    pub status: u16,
    pub kind: ContentKind,
    pub body: Body,
}

/// The 404 response: plain text, `Not Found`.
pub fn not_found() -> (r: Response)
    ensures
        r.status == 404,
        r.kind == ContentKind::PlainText,
        r.body is NotFound,
{
    Response { status: 404, kind: ContentKind::PlainText, body: Body::NotFound }
}

/// Index of the first read that gave content, or the number of reads.
pub open spec fn first_hit(reads: Seq<Option<Vec<u8>>>) -> nat
    decreases reads.len(),
{
    if reads.len() == 0 {
        0
    } else if reads[0] is Some {
        0
    } else {
        1 + first_hit(reads.drop_first())
    }
}

/// `first_hit` is the first read with content, or the length.
pub proof fn lemma_first_hit(reads: Seq<Option<Vec<u8>>>)
    ensures
        first_hit(reads) <= reads.len(),
        forall|j: int| 0 <= j < first_hit(reads) ==> reads[j] is None,
        first_hit(reads) < reads.len() ==> reads[first_hit(reads) as int] is Some,
    decreases reads.len(),
{
    if reads.len() > 0 && reads[0] is None {
        lemma_first_hit(reads.drop_first());
        assert forall|j: int| 0 <= j < first_hit(reads) implies reads[j] is None by {
            if j > 0 {
                assert(reads[j] == reads.drop_first()[j - 1]);
            }
        }
    }
}

/// The response to an asset request, given what reading the candidates in
/// order gave (`reads[k]` for candidate `k`; the reads may stop after the
/// first that gave content): the first content found, served as its own
/// kind, or 404 when nothing was found.
pub fn serve_asset(cands: &Vec<Candidate>, reads: Vec<Option<Vec<u8>>>) -> (r: Response)
    requires
        reads@.len() <= cands@.len(),
    ensures
        first_hit(reads@) < reads@.len() ==> {
            let k = first_hit(reads@) as int;
            &&& r.status == 200
            &&& r.kind == kind_of_segments(views(cands@[k].segments@))
            &&& r.body matches Body::File(b) && b@ == reads@[k]->Some_0@
        },
        first_hit(reads@) == reads@.len() ==> r.status == 404 && r.kind == ContentKind::PlainText
            && r.body is NotFound,
{
    proof {
        lemma_first_hit(reads@);
    }
    let mut k: usize = 0;
    while k < reads.len() && reads[k].is_none()
        invariant
            k <= reads@.len(),
            k <= first_hit(reads@),
            first_hit(reads@) <= reads@.len(),
            forall|j: int| 0 <= j < first_hit(reads@) ==> reads@[j] is None,
            first_hit(reads@) < reads@.len() ==> reads@[first_hit(reads@) as int] is Some,
        decreases reads@.len() - k,
    {
        k += 1;
    }
    if k == reads.len() {
        return not_found();
    }
    let kind = segments_kind(&cands[k].segments);
    let mut reads = reads;
    let hit = reads.remove(k);
    match hit {
        Some(content) => Response { status: 200, kind, body: Body::File(content) },
        None => not_found(),
    }
}

/// When the asset itself was found in no root, the first content found,
/// if any, is the index document of some root: what `serve_asset` sends is
/// then the index document (200) or a 404, never another file.
pub proof fn law_missing_asset(
    cands: Seq<Candidate>,
    reads: Seq<Option<Vec<u8>>>,
    root_count: int,
    asset: Seq<Seq<u8>>,
    index: Seq<Seq<u8>>,
)
    requires
        cands.len() == 2 * root_count,
        forall|k: int|
            0 <= k < cands.len() ==> candidate_ok(#[trigger] cands[k], k, root_count, asset, index),
        reads.len() <= cands.len(),
        forall|j: int| 0 <= j < reads.len() && j < root_count ==> (#[trigger] reads[j]) is None,
    ensures
        first_hit(reads) == reads.len() || {
            let k = first_hit(reads) as int;
            &&& root_count <= k
            &&& cands[k].fallback
            &&& cands[k].root == k - root_count
            &&& views(cands[k].segments@) == index
        },
{
    lemma_first_hit(reads);
    let k = first_hit(reads) as int;
    if k < reads.len() {
        assert(reads[k] is Some);
        assert(candidate_ok(cands[k], k, root_count, asset, index));
    }
}

/// A path with a `..` that climbs above the root, once the segments before
/// it are normalized, is refused as a whole.
pub proof fn law_escape_refused(path: Seq<u8>, k: int)
    requires
        0 <= k < split(strip_slash(path), SLASH).len(),
        normalize(split(strip_slash(path), SLASH).subrange(0, k)) == Some(Seq::<Seq<u8>>::empty()),
        split(strip_slash(path), SLASH)[k] == dotdot_segment(),
    ensures
        path_segments(path) is None,
{
    let segs = split(strip_slash(path), SLASH);
    assert(segs.subrange(0, k + 1).drop_last() =~= segs.subrange(0, k));
    assert(segs.subrange(0, k + 1).last() == segs[k]);
    assert(dotdot_segment().len() != dot_segment().len());
    assert(normalize(segs.subrange(0, k + 1)) is None);
    lemma_normalize_none(segs, k + 1);
}

} // verus!
