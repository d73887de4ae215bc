//! Cutting the viewport out of a frame while the frame is read.
//!
//! A frame arrives row by row, each row `WIDTH` pixels of three bytes. Seen
//! from a viewport the frame falls into regions that follow each other in
//! the stream: the margin in front of the first row of the viewport, that
//! row, then for every further row the margin between the rows and the row
//! itself, and at last the margin behind the last row. The rows are kept,
//! the margins are read and dropped. A snapshot gets every region.

use crate::geometry::{BYTES_PER_FRAME, BYTES_PER_PIXEL, Crop, HEIGHT, WIDTH};
use crate::stream::{ByteStream, Message, SnapshotMsg, messages, payload};
use vstd::prelude::*;

verus! {

/// The bytes of one row of the viewport.
pub open spec fn row_len(crop: Crop) -> int {
    crop.w * BYTES_PER_PIXEL
}

/// Where row `r` of the viewport starts in the frame.
pub open spec fn row_start(crop: Crop, r: int) -> int {
    ((crop.y + r) * WIDTH + crop.x) * BYTES_PER_PIXEL
}

/// Where row `r` of the viewport ends in the frame.
pub open spec fn row_end(crop: Crop, r: int) -> int {
    row_start(crop, r) + row_len(crop)
}

/// Row `r` of the viewport, in a stream `s` that starts with the frame.
pub open spec fn row(s: Seq<u8>, crop: Crop, r: int) -> Seq<u8> {
    s.subrange(row_start(crop, r), row_end(crop, r))
}

/// The margin that is read just before row `r` of the viewport: for the
/// first row all of the frame in front of it, for another row what lies
/// between it and the row above.
pub open spec fn margin_before(s: Seq<u8>, crop: Crop, r: int) -> Seq<u8> {
    s.subrange(
        if r == 0 {
            0
        } else {
            row_end(crop, r - 1)
        },
        row_start(crop, r),
    )
}

/// The margin behind the last row of the viewport, up to the end of the
/// frame.
pub open spec fn back_margin(s: Seq<u8>, crop: Crop) -> Seq<u8> {
    s.subrange(row_end(crop, crop.h - 1), BYTES_PER_FRAME as int)
}

/// The first `n` rows of the viewport, one after the other.
pub open spec fn rows(s: Seq<u8>, crop: Crop, n: nat) -> Seq<u8>
    decreases n,
{
    if n == 0 {
        Seq::empty()
    } else {
        rows(s, crop, (n - 1) as nat) + row(s, crop, n - 1)
    }
}

/// The image in the viewport `crop` of the frame that `s` starts with: its
/// rows from top to bottom, each from left to right.
pub open spec fn cropped_image(s: Seq<u8>, crop: Crop) -> Seq<u8> {
    rows(s, crop, crop.h as nat)
}

/// The snapshot messages for the regions up to and with row `n - 1` of the
/// viewport, in the order in which the regions are read.
pub open spec fn region_messages(s: Seq<u8>, crop: Crop, n: nat) -> Seq<Message>
    decreases n,
{
    if n == 0 {
        Seq::empty()
    } else {
        region_messages(s, crop, (n - 1) as nat).push(
            Message::Chunk(margin_before(s, crop, n - 1)),
        ).push(Message::Chunk(row(s, crop, n - 1)))
    }
}

/// How many of the first `n` rows of the viewport lie within the first
/// `len` bytes of the frame, from the first row on.
pub open spec fn complete_rows(len: int, crop: Crop, n: nat) -> nat
    decreases n,
{
    if n == 0 {
        0
    } else if row_end(crop, n - 1) <= len {
        n
    } else {
        complete_rows(len, crop, (n - 1) as nat)
    }
}

/// The snapshot messages that reading one frame from the stream `s` sends.
/// Where `s` holds a whole frame there is one chunk for each region and then
/// the end of the snapshot. Where `s` ends before that, there are the chunks
/// of the rows that are complete and of the margins in front of them, and no
/// end.
pub open spec fn snapshot_of(s: Seq<u8>, crop: Crop) -> Seq<Message> {
    if s.len() >= BYTES_PER_FRAME {
        region_messages(s, crop, crop.h as nat).push(Message::Chunk(back_margin(s, crop))).push(
            Message::End,
        )
    } else {
        region_messages(s, crop, complete_rows(s.len() as int, crop, crop.h as nat))
    }
}

/// Reads one frame from `input` and returns the image in the viewport
/// `crop`. Where `snapshot` is given, every region that was read is added to
/// it as a chunk, and after the last one the end of the snapshot. Where the
/// input ends before the frame does there is no image, the rest of the
/// input is used up, and the snapshot stops after the last row that was
/// complete.
pub fn read_cropped(
    crop: &Crop,
    input: &mut ByteStream,
    snapshot: Option<&mut Vec<SnapshotMsg>>,
) -> (cropped: Option<Vec<u8>>)
    requires
        crop.fits(),
    ensures
        old(input)@.len() >= BYTES_PER_FRAME ==> {
            &&& cropped matches Some(image)
            &&& image@ == cropped_image(old(input)@, *crop)
            &&& final(input)@ == old(input)@.skip(BYTES_PER_FRAME as int)
        },
        old(input)@.len() < BYTES_PER_FRAME ==> {
            &&& cropped is None
            &&& final(input)@ == Seq::<u8>::empty()
        },
        snapshot matches Some(sent) ==> messages(final(sent)@) == messages(sent@) + snapshot_of(
            old(input)@,
            *crop,
        ),
{
    match snapshot {
        Some(sent) => extract(crop, input, true, sent),
        None => {
            let mut unused: Vec<SnapshotMsg> = Vec::new();
            extract(crop, input, false, &mut unused)
        },
    }
}

/// `read_cropped` with a snapshot that is written to only where it is
/// `wanted`.
fn extract(
    crop: &Crop,
    input: &mut ByteStream,
    wanted: bool,
    sent: &mut Vec<SnapshotMsg>,
) -> (cropped: Option<Vec<u8>>)
    requires
        crop.fits(),
    ensures
        old(input)@.len() >= BYTES_PER_FRAME ==> {
            &&& cropped matches Some(image)
            &&& image@ == cropped_image(old(input)@, *crop)
            &&& final(input)@ == old(input)@.skip(BYTES_PER_FRAME as int)
        },
        old(input)@.len() < BYTES_PER_FRAME ==> {
            &&& cropped is None
            &&& final(input)@ == Seq::<u8>::empty()
        },
        wanted ==> messages(final(sent)@) == messages(old(sent)@) + snapshot_of(old(input)@, *crop),
        !wanted ==> final(sent)@ == old(sent)@,
{
    let x = crop.x as usize;
    let y = crop.y as usize;
    let w = crop.w as usize;
    let h = crop.h as usize;
    let front_len = (y * WIDTH + x) * BYTES_PER_PIXEL;
    let gap_len = (WIDTH - w) * BYTES_PER_PIXEL;
    let line_len = w * BYTES_PER_PIXEL;
    let back_len = (WIDTH - w - x + (HEIGHT - y - h) * WIDTH) * BYTES_PER_PIXEL;
    let ghost s = input@;
    let ghost before = messages(sent@);
    proof {
        lemma_layout(*crop, 0);
        lemma_layout(*crop, h - 1);
        assert(back_len == BYTES_PER_FRAME - row_end(*crop, h - 1));
    }
    assert(w * h <= 921600) by (nonlinear_arith)
        requires
            w <= 1280,
            h <= 720,
    ;
    let mut image: Vec<u8> = Vec::with_capacity(w * h * BYTES_PER_PIXEL);

    let front = match input.read_exact(front_len) {
        Some(bytes) => bytes,
        None => {
            proof {
                lemma_complete_rows(s.len() as int, *crop, h as nat, 0);
                assert(before + region_messages(s, *crop, 0) =~= before);
            }
            return None;
        },
    };
    let line = match input.read_exact(line_len) {
        Some(bytes) => bytes,
        None => {
            proof {
                lemma_complete_rows(s.len() as int, *crop, h as nat, 0);
                assert(before + region_messages(s, *crop, 0) =~= before);
            }
            return None;
        },
    };
    proof {
        assert(front@ =~= margin_before(s, *crop, 0));
        assert(line@ =~= row(s, *crop, 0));
        assert(input@ =~= s.skip(row_end(*crop, 0)));
        assert(rows(s, *crop, 0) + row(s, *crop, 0) =~= row(s, *crop, 0));
    }
    image.extend_from_slice(line.as_slice());
    assert(image@ =~= rows(s, *crop, 1));
    if wanted {
        send(sent, front);
        send(sent, line);
        assert(region_messages(s, *crop, 0) =~= Seq::<Message>::empty());
        assert(messages(sent@) =~= before + region_messages(s, *crop, 1));
    }
    let mut r: usize = 1;
    while r < h
        invariant
            crop.fits(),
            s == old(input)@,
            before == messages(old(sent)@),
            h == crop.h,
            gap_len == (WIDTH - crop.w) * BYTES_PER_PIXEL,
            line_len == row_len(*crop),
            1 <= r <= h,
            row_end(*crop, r - 1) <= s.len(),
            input@ == s.skip(row_end(*crop, r - 1)),
            image@ == rows(s, *crop, r as nat),
            wanted ==> messages(sent@) == before + region_messages(s, *crop, r as nat),
            !wanted ==> sent@ == old(sent)@,
        decreases h - r,
    {
        proof {
            lemma_layout(*crop, r as int);
        }
        let gap = match input.read_exact(gap_len) {
            Some(bytes) => bytes,
            None => {
                proof {
                    lemma_complete_rows(s.len() as int, *crop, h as nat, r as nat);
                }
                return None;
            },
        };
        let line = match input.read_exact(line_len) {
            Some(bytes) => bytes,
            None => {
                proof {
                    lemma_complete_rows(s.len() as int, *crop, h as nat, r as nat);
                }
                return None;
            },
        };
        proof {
            assert(gap@ =~= margin_before(s, *crop, r as int));
            assert(line@ =~= row(s, *crop, r as int));
            assert(input@ =~= s.skip(row_end(*crop, r as int)));
        }
        let ghost image_before = image@;
        image.extend_from_slice(line.as_slice());
        assert(image@ =~= image_before + line@);
        if wanted {
            send(sent, gap);
            send(sent, line);
            assert(messages(sent@) =~= before + region_messages(s, *crop, (r + 1) as nat));
        }
        r += 1;
    }
    let back = match input.read_exact(back_len) {
        Some(bytes) => bytes,
        None => {
            proof {
                lemma_complete_rows(s.len() as int, *crop, h as nat, h as nat);
            }
            return None;
        },
    };
    proof {
        assert(back@ =~= back_margin(s, *crop));
        assert(input@ =~= s.skip(BYTES_PER_FRAME as int));
    }
    if wanted {
        send(sent, back);
        let ghost with_back = sent@;
        sent.push(SnapshotMsg::End);
        assert(messages(sent@) =~= messages(with_back).push(Message::End));
        assert(messages(sent@) =~= before + snapshot_of(s, *crop));
    }
    Some(image)
}

/// Adds a chunk to a snapshot.
fn send(sent: &mut Vec<SnapshotMsg>, bytes: Vec<u8>)
    ensures
        messages(final(sent)@) == messages(old(sent)@).push(Message::Chunk(bytes@)),
{
    let ghost before = sent@;
    sent.push(SnapshotMsg::Chunk(bytes));
    assert(messages(sent@) =~= messages(before).push(Message::Chunk(bytes@)));
}

/// The rows of a viewport that fits lie inside the frame, one after the
/// other.
proof fn lemma_layout(crop: Crop, r: int)
    requires
        crop.fits(),
        0 <= r < crop.h,
    ensures
        0 <= row_start(crop, r) < row_end(crop, r) <= BYTES_PER_FRAME,
        r > 0 ==> row_start(crop, r) == row_end(crop, r - 1) + (WIDTH - crop.w) * BYTES_PER_PIXEL,
{
}

/// `complete_rows` is the number `k` of rows such that row `k - 1` lies
/// within `len` bytes and row `k` does not.
proof fn lemma_complete_rows(len: int, crop: Crop, n: nat, k: nat)
    requires
        k <= n,
        k > 0 ==> row_end(crop, k - 1) <= len,
        k < n ==> len < row_end(crop, k as int),
    ensures
        complete_rows(len, crop, n) == k,
    decreases n,
{
    if n > k {
        assert(row_end(crop, k as int) <= row_end(crop, n - 1));
        lemma_complete_rows(len, crop, (n - 1) as nat, k);
    }
}

/// The rows that `complete_rows` counts lie within `len` bytes.
proof fn lemma_complete_rows_bound(len: int, crop: Crop, n: nat)
    ensures
        complete_rows(len, crop, n) <= n,
        complete_rows(len, crop, n) > 0 ==> row_end(crop, complete_rows(len, crop, n) - 1) <= len,
    decreases n,
{
    if n > 0 && row_end(crop, n - 1) > len {
        lemma_complete_rows_bound(len, crop, (n - 1) as nat);
    }
}

/// The first `n` rows together have `n` times the bytes of one row.
proof fn lemma_rows_len(s: Seq<u8>, crop: Crop, n: nat)
    requires
        crop.fits(),
        n <= crop.h,
        s.len() >= BYTES_PER_FRAME,
    ensures
        rows(s, crop, n).len() == n * row_len(crop),
    decreases n,
{
    let l = row_len(crop);
    if n > 0 {
        lemma_rows_len(s, crop, (n - 1) as nat);
        lemma_layout(crop, n - 1);
        assert(row(s, crop, n - 1).len() == l);
        assert((n - 1) * l + l == n * l) by (nonlinear_arith);
    } else {
        assert(0 * l == 0) by (nonlinear_arith);
    }
}

/// Byte `j` of row `r` stands in the first `n` rows where the rows before it
/// end.
proof fn lemma_rows_index(s: Seq<u8>, crop: Crop, n: nat, r: int, j: int)
    requires
        crop.fits(),
        s.len() >= BYTES_PER_FRAME,
        0 <= r < n <= crop.h,
        0 <= j < row_len(crop),
    ensures
        0 <= r * row_len(crop) + j < rows(s, crop, n).len(),
        rows(s, crop, n)[r * row_len(crop) + j] == s[row_start(crop, r) + j],
    decreases n,
{
    let l = row_len(crop);
    lemma_rows_len(s, crop, n);
    lemma_rows_len(s, crop, (n - 1) as nat);
    lemma_layout(crop, n - 1);
    assert((n - 1) * l + l == n * l) by (nonlinear_arith);
    if r == n - 1 {
        assert(0 <= r * l) by (nonlinear_arith)
            requires
                0 <= r,
                0 <= l,
        ;
    } else {
        lemma_rows_index(s, crop, (n - 1) as nat, r, j);
    }
}

/// The cropped image is the rectangle of the viewport, pixel for pixel in
/// row-major order: byte `k` of the pixel in row `r` and column `c` of the
/// image is byte `k` of the pixel in row `y + r` and column `x + c` of the
/// frame. The image has `w * h` pixels.
pub proof fn lemma_cropped_pixel(s: Seq<u8>, crop: Crop, r: int, c: int, k: int)
    requires
        crop.fits(),
        s.len() >= BYTES_PER_FRAME,
        0 <= r < crop.h,
        0 <= c < crop.w,
        0 <= k < BYTES_PER_PIXEL,
    ensures
        cropped_image(s, crop).len() == crop.w * crop.h * BYTES_PER_PIXEL,
        0 <= (r * crop.w + c) * BYTES_PER_PIXEL + k < cropped_image(s, crop).len(),
        0 <= ((crop.y + r) * WIDTH + crop.x + c) * BYTES_PER_PIXEL + k < BYTES_PER_FRAME,
        cropped_image(s, crop)[(r * crop.w + c) * BYTES_PER_PIXEL + k] == s[((crop.y + r) * WIDTH
            + crop.x + c) * BYTES_PER_PIXEL + k],
{
    let w = crop.w as int;
    let h = crop.h as int;
    lemma_rows_len(s, crop, crop.h as nat);
    lemma_rows_index(s, crop, crop.h as nat, r, c * 3 + k);
    lemma_layout(crop, r);
    assert(h * (w * 3) == w * h * 3) by (nonlinear_arith);
    assert(r * (w * 3) + (c * 3 + k) == (r * w + c) * 3 + k) by (nonlinear_arith);
}

/// The chunks up to and with row `n - 1` carry the frame up to the end of
/// that row.
proof fn lemma_region_payload(s: Seq<u8>, crop: Crop, n: nat)
    requires
        crop.fits(),
        1 <= n <= crop.h,
        row_end(crop, n - 1) <= s.len(),
    ensures
        payload(region_messages(s, crop, n)) == s.take(row_end(crop, n - 1)),
    decreases n,
{
    let before = region_messages(s, crop, (n - 1) as nat);
    let with_margin = before.push(Message::Chunk(margin_before(s, crop, n - 1)));
    let all = with_margin.push(Message::Chunk(row(s, crop, n - 1)));
    lemma_layout(crop, n - 1);
    assert(all.drop_last() =~= with_margin);
    assert(with_margin.drop_last() =~= before);
    if n > 1 {
        lemma_layout(crop, n - 2);
        lemma_region_payload(s, crop, (n - 1) as nat);
    } else {
        assert(payload(before) =~= Seq::<u8>::empty());
    }
    assert(payload(with_margin) == payload(before) + margin_before(s, crop, n - 1));
    assert(payload(all) == payload(with_margin) + row(s, crop, n - 1));
    assert(payload(all) =~= s.take(row_end(crop, n - 1)));
}

/// A snapshot carries the frame as it came in, whole and unchanged, and
/// ends with the end marker. Where the input ends before the frame does,
/// the snapshot carries the start of what came in.
pub proof fn lemma_snapshot_is_the_frame(s: Seq<u8>, crop: Crop)
    requires
        crop.fits(),
    ensures
        s.len() >= BYTES_PER_FRAME ==> payload(snapshot_of(s, crop)) == s.take(
            BYTES_PER_FRAME as int,
        ) && snapshot_of(s, crop).last() == Message::End,
        payload(snapshot_of(s, crop)).len() <= s.len(),
        payload(snapshot_of(s, crop)) == s.take(payload(snapshot_of(s, crop)).len() as int),
{
    let h = crop.h as nat;
    if s.len() >= BYTES_PER_FRAME {
        lemma_layout(crop, h - 1);
        lemma_region_payload(s, crop, h);
        let regions = region_messages(s, crop, h);
        let with_back = regions.push(Message::Chunk(back_margin(s, crop)));
        let all = with_back.push(Message::End);
        assert(all.drop_last() =~= with_back);
        assert(with_back.drop_last() =~= regions);
        assert(payload(with_back) == payload(regions) + back_margin(s, crop));
        assert(payload(all) == payload(with_back) + Seq::<u8>::empty());
        assert(payload(all) =~= s.take(BYTES_PER_FRAME as int));
    } else {
        let k = complete_rows(s.len() as int, crop, h);
        lemma_complete_rows_bound(s.len() as int, crop, h);
        if k > 0 {
            lemma_region_payload(s, crop, k);
        } else {
            assert(payload(region_messages(s, crop, 0)) =~= s.take(0));
        }
    }
}

} // verus!
