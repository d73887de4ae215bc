use zoom_relay::extract::read_cropped;
use zoom_relay::geometry::{full_crop, Crop, BYTES_PER_FRAME, BYTES_PER_PIXEL, HEIGHT, WIDTH};
use zoom_relay::stream::{ByteStream, SnapshotMsg};

/// A frame in which every byte tells its own row, column and colour.
fn marked_frame(seed: usize) -> Vec<u8> {
    let mut frame = Vec::with_capacity(BYTES_PER_FRAME);
    for row in 0..HEIGHT {
        for col in 0..WIDTH {
            for k in 0..BYTES_PER_PIXEL {
                frame.push(marker(seed, row, col, k));
            }
        }
    }
    frame
}

fn marker(seed: usize, row: usize, col: usize, k: usize) -> u8 {
    ((row * 7 + col * 13 + k * 101 + seed * 31) % 251) as u8
}

fn payload(msgs: &[SnapshotMsg]) -> Vec<u8> {
    let mut bytes = Vec::new();
    for msg in msgs {
        if let SnapshotMsg::Chunk(chunk) = msg {
            bytes.extend_from_slice(chunk);
        }
    }
    bytes
}

fn chunk_lens(msgs: &[SnapshotMsg]) -> Vec<Option<usize>> {
    msgs.iter()
        .map(|msg| match msg {
            SnapshotMsg::Chunk(chunk) => Some(chunk.len()),
            SnapshotMsg::End => None,
        })
        .collect()
}

fn check_image(image: &[u8], crop: Crop, seed: usize) {
    let (x, y, w, h) = (crop.x as usize, crop.y as usize, crop.w as usize, crop.h as usize);
    assert_eq!(image.len(), w * h * BYTES_PER_PIXEL);
    for r in 0..h {
        for c in 0..w {
            for k in 0..BYTES_PER_PIXEL {
                assert_eq!(image[(r * w + c) * BYTES_PER_PIXEL + k], marker(seed, y + r, x + c, k));
            }
        }
    }
}

#[test]
fn the_image_is_the_rectangle_in_row_major_order() {
    let crops = [
        Crop { x: 320, y: 180, w: 640, h: 360 },
        Crop { x: 0, y: 0, w: 1, h: 1 },
        Crop { x: 1279, y: 719, w: 1, h: 1 },
        Crop { x: 0, y: 0, w: 1280, h: 1 },
        Crop { x: 0, y: 719, w: 1280, h: 1 },
        Crop { x: 5, y: 0, w: 1, h: 720 },
        Crop { x: 1000, y: 700, w: 280, h: 20 },
        full_crop(),
    ];
    let frame = marked_frame(1);
    for crop in crops {
        let mut input = ByteStream::new(frame.clone());
        let image = read_cropped(&crop, &mut input, None).expect("a whole frame was there");
        check_image(&image, crop, 1);
        assert_eq!(input.available(), 0);
    }
}

#[test]
fn a_small_image_has_the_expected_bytes() {
    let frame = marked_frame(0);
    let crop = Crop { x: 2, y: 1, w: 2, h: 2 };
    let mut input = ByteStream::new(frame);
    let image = read_cropped(&crop, &mut input, None).unwrap();
    let at = |row: usize, col: usize, k: usize| marker(0, row, col, k);
    assert_eq!(
        image,
        vec![
            at(1, 2, 0), at(1, 2, 1), at(1, 2, 2), at(1, 3, 0), at(1, 3, 1), at(1, 3, 2),
            at(2, 2, 0), at(2, 2, 1), at(2, 2, 2), at(2, 3, 0), at(2, 3, 1), at(2, 3, 2),
        ]
    );
    assert_eq!(image, vec![33, 134, 235, 46, 147, 248, 40, 141, 242, 53, 154, 4]);
}

#[test]
fn a_snapshot_is_the_whole_frame() {
    let frame = marked_frame(2);
    let crop = Crop { x: 320, y: 180, w: 640, h: 360 };
    let mut input = ByteStream::new(frame.clone());
    let mut sent = vec![SnapshotMsg::End];
    let image = read_cropped(&crop, &mut input, Some(&mut sent)).unwrap();
    check_image(&image, crop, 2);
    assert_eq!(sent[0], SnapshotMsg::End);
    let sent = &sent[1..];
    assert_eq!(sent.len(), 2 * 360 + 2);
    assert_eq!(sent.last(), Some(&SnapshotMsg::End));
    assert!(sent[..sent.len() - 1].iter().all(|msg| *msg != SnapshotMsg::End));
    assert_eq!(payload(sent), frame);
    let lens = chunk_lens(sent);
    assert_eq!(lens[0], Some((180 * 1280 + 320) * 3));
    assert_eq!(lens[1], Some(640 * 3));
    assert_eq!(lens[2], Some(640 * 3));
    assert_eq!(lens[3], Some(640 * 3));
    assert_eq!(lens[2 * 360], Some((1280 - 640 - 320 + (720 - 180 - 360) * 1280) * 3));
    assert_eq!(lens[2 * 360 + 1], None);
}

#[test]
fn a_snapshot_of_a_corner_has_empty_margins() {
    let frame = marked_frame(3);
    let crop = Crop { x: 0, y: 0, w: 1280, h: 2 };
    let mut input = ByteStream::new(frame.clone());
    let mut sent = Vec::new();
    read_cropped(&crop, &mut input, Some(&mut sent)).unwrap();
    assert_eq!(
        chunk_lens(&sent),
        vec![Some(0), Some(3840), Some(0), Some(3840), Some(718 * 3840), None]
    );
    assert_eq!(payload(&sent), frame);
}

#[test]
fn frames_are_read_one_after_the_other() {
    let mut bytes = marked_frame(4);
    bytes.extend_from_slice(&marked_frame(5));
    bytes.extend_from_slice(&[1, 2, 3]);
    let crop = Crop { x: 100, y: 50, w: 30, h: 20 };
    let mut input = ByteStream::new(bytes);
    let first = read_cropped(&crop, &mut input, None).unwrap();
    check_image(&first, crop, 4);
    assert_eq!(input.available(), BYTES_PER_FRAME + 3);
    let other = Crop { x: 7, y: 8, w: 9, h: 10 };
    let second = read_cropped(&other, &mut input, None).unwrap();
    check_image(&second, other, 5);
    assert_eq!(input.available(), 3);
    assert_eq!(read_cropped(&crop, &mut input, None), None);
    assert_eq!(input.available(), 0);
}

#[test]
fn an_input_that_ends_early_gives_no_image() {
    let frame = marked_frame(6);
    let crop = Crop { x: 320, y: 180, w: 640, h: 360 };
    let row_end = |r: usize| ((180 + r) * 1280 + 320 + 640) * 3;
    let cases = [
        (0, 0),
        (row_end(0) - 1, 0),
        (row_end(0), 1),
        (row_end(0) + 1, 1),
        (row_end(1) - 1, 1),
        (row_end(1), 2),
        (row_end(100) + 5, 101),
        (row_end(359) - 1, 359),
        (row_end(359), 360),
        (BYTES_PER_FRAME - 1, 360),
    ];
    for (len, rows) in cases {
        let mut input = ByteStream::new(frame[..len].to_vec());
        let mut sent = Vec::new();
        assert_eq!(read_cropped(&crop, &mut input, Some(&mut sent)), None, "{}", len);
        assert_eq!(input.available(), 0);
        assert_eq!(sent.len(), 2 * rows, "{}", len);
        assert!(sent.iter().all(|msg| *msg != SnapshotMsg::End));
        let carried = payload(&sent);
        let expected = if rows == 0 { 0 } else { row_end(rows - 1) };
        assert_eq!(carried.len(), expected);
        assert_eq!(carried[..], frame[..expected]);

        let mut input = ByteStream::new(frame[..len].to_vec());
        assert_eq!(read_cropped(&crop, &mut input, None), None);
        assert_eq!(input.available(), 0);
    }
}

#[test]
fn byte_stream_reads_in_order() {
    let mut input = ByteStream::new(vec![1, 2, 3, 4, 5]);
    assert_eq!(input.available(), 5);
    assert_eq!(input.read_exact(0), Some(vec![]));
    assert_eq!(input.read_exact(2), Some(vec![1, 2]));
    assert_eq!(input.available(), 3);
    assert_eq!(input.read_exact(3), Some(vec![3, 4, 5]));
    assert_eq!(input.available(), 0);
    assert_eq!(input.read_exact(0), Some(vec![]));
    assert_eq!(input.read_exact(1), None);
}

#[test]
fn byte_stream_is_used_up_by_a_read_that_fails() {
    let mut input = ByteStream::new(vec![1, 2, 3, 4, 5]);
    assert_eq!(input.read_exact(1), Some(vec![1]));
    assert_eq!(input.read_exact(5), None);
    assert_eq!(input.available(), 0);
    assert_eq!(input.read_exact(1), None);
    assert_eq!(input.read_exact(usize::MAX), None);
}
