use bevy_v4l2::capture::DequeuedFrame;
use bevy_v4l2::jpeg::{check_layout, check_scales, read_headers};
use bevy_v4l2::mjpeg::{
    check_size, decode_frame, jpeg_len, DecodeFailure, DecodeStep, DecodedFrame, Decoder, Delivery,
};
use bevy_v4l2::Duration;

/// A grey JPEG image, 8 pixels wide and high, with no detail.
fn grey() -> Vec<u8> {
    let mut out = vec![0xff, 0xd8];
    // Quantisation table of ones.
    out.extend([0xff, 0xdb, 0, 67, 0]);
    out.extend([1u8; 64]);
    // Baseline frame: 8 bits, 8x8, one component.
    out.extend([0xff, 0xc0, 0, 11, 8, 0, 8, 0, 8, 1, 1, 0x11, 0]);
    // Huffman tables with a single code each: no difference, and end of block.
    for class in [0x00, 0x10] {
        out.extend([0xff, 0xc4, 0, 20, class, 1]);
        out.extend([0u8; 15]);
        out.push(0);
    }
    // Scan: one block.
    out.extend([0xff, 0xda, 0, 8, 1, 1, 0x00, 0, 63, 0]);
    out.push(0b0011_1111);
    out.extend([0xff, 0xd9]);
    out
}

fn frame(index: u32, sequence: u32) -> DequeuedFrame {
    DequeuedFrame {
        index,
        sequence,
        bytes_used: 10,
        timestamp: Duration::from_millis(sequence as u64),
        error: false,
    }
}

fn decoded(sequence: u32) -> DecodedFrame {
    DecodedFrame {
        rgba: vec![sequence as u8; 4],
        sequence,
        timestamp: Duration::from_millis(0),
        decode_time: Duration::from_millis(2),
    }
}

#[test]
fn a_jpeg_is_decoded_into_rgba() {
    let mut out = vec![7u8; 8 * 8 * 4];
    assert_eq!(decode_frame(&grey(), 8, 8, &mut out), Ok(()));
    for pixel in out.chunks(4) {
        assert_eq!(pixel, [128, 128, 128, 255]);
    }
}

/// The headers of an image up to its scan: a table of eights, a frame of 16 by 8 pixels with these
/// sampling factors, and Huffman tables for differences of 0 and of six bits, and for end of block.
fn headers(frame: u8, sampling: &[u8], scan: &[u8]) -> Vec<u8> {
    let n = sampling.len() as u8;
    let mut out = vec![0xff, 0xd8, 0xff, 0xdb, 0, 67, 0];
    out.extend([8u8; 64]);
    out.extend([0xff, frame, 0, 8 + 3 * n, 8, 0, 8, 0, 16, n]);
    for (i, factors) in sampling.iter().enumerate() {
        out.extend([i as u8 + 1, *factors, 0]);
    }
    out.extend([0xff, 0xc4, 0, 21, 0x00, 1, 1]);
    out.extend([0u8; 14]);
    out.extend([0, 6]);
    out.extend([0xff, 0xc4, 0, 20, 0x10, 1]);
    out.extend([0u8; 15]);
    out.push(0);
    out.extend([0xff, 0xda, 0, 6 + 2 * scan.len() as u8, scan.len() as u8]);
    for id in scan {
        out.extend([*id, 0x00]);
    }
    out.extend([0, 63, 0]);
    out
}

#[test]
fn colour_at_half_the_width_is_decoded() {
    let mut jpeg = headers(0xc0, &[0x21, 0x11, 0x11], &[1, 2, 3]);
    // Two blocks of luma without a difference, one of the first chroma with one of 50, one of the
    // second without: 00 00, 10 110010 0, 00, and a one to fill up.
    jpeg.extend([0b0000_1011, 0b0010_0001, 0xff, 0xd9]);
    assert!(check_layout(&jpeg));
    let mut out = vec![7u8; 16 * 8 * 4];
    assert_eq!(decode_frame(&jpeg, 16, 8, &mut out), Ok(()));
    for pixel in out.chunks(4) {
        assert_eq!(pixel, [128, 111, 217, 255]);
    }
}

#[test]
fn a_finer_component_after_the_first_is_refused_where_it_is_buffered() {
    let mut out = vec![7u8; 16 * 8 * 4];
    for (frame, scan) in [(0xc2, vec![1, 2, 3]), (0xc2, vec![2]), (0xc0, vec![2]), (0xc1, vec![1])] {
        let jpeg = headers(frame, &[0x11, 0x22, 0x11], &scan);
        assert!(!check_layout(&jpeg));
        assert_eq!(decode_frame(&jpeg, 16, 8, &mut out), Err(DecodeFailure::Layout));
        // A frame of another size is refused as such.
        assert!(matches!(decode_frame(&jpeg, 8, 8, &mut out), Err(DecodeFailure::Size { .. })));
    }
    assert!(out.iter().all(|b| *b == 7));
    // One scan of all components is not buffered.
    let jpeg = headers(0xc0, &[0x11, 0x22, 0x11], &[1, 2, 3]);
    assert!(check_layout(&jpeg));
    assert_ne!(decode_frame(&jpeg, 16, 8, &mut out), Err(DecodeFailure::Layout));
}

#[test]
fn the_usual_samplings_are_decoded_however_they_are_scanned() {
    for sampling in [&[0x22, 0x11, 0x11][..], &[0x21, 0x11, 0x11], &[0x11, 0x11, 0x11], &[0x11]] {
        for frame in [0xc0, 0xc1, 0xc2] {
            assert!(check_layout(&headers(frame, sampling, &[1])));
        }
    }
    assert!(check_layout(&grey()) && check_layout(&[]) && check_layout(&[0xff]));
}

#[test]
fn every_sampling_that_passes_is_decoded_or_refused() {
    let factors: Vec<u8> = (1..=4u8).flat_map(|v| [0x10 | v, 0x20 | v, 0x40 | v]).collect();
    // Bits without a pattern, and without a byte that begins a marker.
    let data: Vec<u8> = (0..600u32).map(|i| (i.wrapping_mul(2_654_435_761) >> 24) as u8 & 0x7f).collect();
    let (mut passed, mut refused) = (0, 0);
    for a in &factors {
        for b in &factors {
            for c in &factors {
                for (frame, scans) in [
                    (0xc0, vec![vec![1, 2, 3]]),
                    (0xc0, vec![vec![1], vec![2], vec![3]]),
                    (0xc2, vec![vec![1, 2, 3], vec![1]]),
                    (0xc2, vec![vec![3], vec![2], vec![1]]),
                ] {
                    let mut jpeg = headers(frame, &[*a, *b, *c], &scans[0]);
                    let at = jpeg.windows(2).position(|w| w == [0xff, frame]).unwrap();
                    // 40 by 36 pixels.
                    jpeg[at + 6] = 36;
                    jpeg[at + 8] = 40;
                    let last = jpeg.len() - 2;
                    jpeg[last] = if frame == 0xc2 { 0 } else { 63 };
                    jpeg.extend(&data);
                    for scan in &scans[1..] {
                        jpeg.extend([0xff, 0xda, 0, 8, 1, scan[0], 0x00, 0, jpeg[last], 0]);
                        jpeg.extend(&data);
                    }
                    jpeg.extend([0xff, 0xd9]);
                    let mut out = vec![0u8; 40 * 36 * 4];
                    let result = decode_frame(&jpeg, 40, 36, &mut out);
                    assert_eq!(result == Err(DecodeFailure::Layout), !check_layout(&jpeg));
                    if check_layout(&jpeg) {
                        passed += 1;
                    } else {
                        refused += 1;
                    }
                }
            }
        }
    }
    assert!(passed > refused && refused > 0, "{passed} {refused}");
}

#[test]
fn four_colours_are_not_announced_for_two_components() {
    let mut adobe = vec![0xff, 0xee, 0, 14];
    adobe.extend(b"Adobe");
    adobe.extend([0, 100, 0, 0, 0, 0, 2]);
    let with = |image: Vec<u8>, at: usize| {
        let mut out = image[..at].to_vec();
        out.extend(&adobe);
        out.extend(&image[at..]);
        out
    };
    let two = headers(0xc2, &[0x11, 0x11], &[1]);
    assert!(check_layout(&two));
    assert!(!check_layout(&with(two.clone(), 2)));
    let mut out = vec![7u8; 16 * 8 * 4];
    assert_eq!(decode_frame(&with(two, 2), 16, 8, &mut out), Err(DecodeFailure::Layout));
    // A single component overrides what is announced before it, not what comes after.
    let one = headers(0xc2, &[0x11], &[1]);
    assert!(check_layout(&with(one.clone(), 2)));
    let frame = one.windows(2).position(|w| w == [0xff, 0xc2]).unwrap() + 2 + 11;
    assert!(!check_layout(&with(one, frame)));
    // The last word counts.
    let mut three = adobe.clone();
    three[15] = 1;
    let mut taken_back = vec![0xff, 0xd8];
    taken_back.extend(adobe.iter().chain(&three));
    taken_back.extend(&headers(0xc2, &[0x11, 0x11], &[1])[2..]);
    assert!(check_layout(&taken_back));
    // Behind the first scan any word counts.
    let mut late = headers(0xc2, &[0x11, 0x11], &[1]);
    late.extend([0, 0xff, 0xd9]);
    late.extend(&adobe);
    assert!(!check_layout(&late));
    // Three components, or a frame that is not progressive, are decoded all the same.
    assert!(check_layout(&with(headers(0xc2, &[0x21, 0x11, 0x11], &[1]), 2)));
    assert!(check_layout(&with(headers(0xc0, &[0x11, 0x11], &[1]), 2)));
}

/// A segment with this code and these contents.
fn segment(code: u8, contents: &[u8]) -> Vec<u8> {
    let length = contents.len() as u16 + 2;
    let mut out = vec![0xff, code, (length >> 8) as u8, length as u8];
    out.extend(contents);
    out
}

/// `image` with `more` put in behind its first marker.
fn behind_the_start(image: &[u8], more: &[u8]) -> Vec<u8> {
    let mut out = image[..2].to_vec();
    out.extend(more);
    out.extend(&image[2..]);
    out
}

#[test]
fn what_a_comment_holds_does_not_matter() {
    // The frame header of a layout that could not be decoded, scans and tables.
    let mut words = segment(0xc2, &[8, 0, 8, 0, 8, 3, 1, 0x11, 0, 2, 0x22, 0, 3, 0x11, 0]);
    words.extend(segment(0xda, &[1, 1, 0, 0, 0, 0]));
    words.extend(segment(0xdb, &[0x10; 129]));
    words.extend(segment(0xc4, &[15; 19]));
    words.extend(segment(0xdd, &[0, 1]));
    for code in [0xfe, 0xe3, 0xef, 0xd8] {
        let image = behind_the_start(&grey(), &segment(code, &words));
        assert!(check_layout(&image) && check_scales(&image), "{code:x}");
        let mut out = vec![7u8; 8 * 8 * 4];
        assert_eq!(decode_frame(&image, 8, 8, &mut out), Ok(()), "{code:x}");
        assert_eq!(out, [128, 128, 128, 255].repeat(64));
    }
}

#[test]
fn headers_are_walked_as_the_decoder_walks_them() {
    let plain = read_headers(&grey()).unwrap();
    assert_eq!(plain.frame, Some(71));
    assert_eq!((plain.scales, plain.category), ((1, 0, 0, 0), 0));
    assert_eq!((plain.zero_first, plain.restart, plain.four), (true, 0, false));
    assert_eq!(plain.scan, 71 + 13 + 2 * 22);
    // Bytes between segments are passed over, and so are zeros and repetitions within a marker.
    for more in [&[1, 2, 3][..], &[0xff, 0], &[0xff, 0xff], &[0xff, 0, 0xff, 0xff], &[0; 9]] {
        let image = behind_the_start(&grey(), more);
        let h = read_headers(&image).unwrap();
        assert_eq!(h.frame, Some(71 + more.len()));
        let mut out = vec![7u8; 8 * 8 * 4];
        assert_eq!(decode_frame(&image, 8, 8, &mut out), Ok(()));
    }
    // Six bytes of the first application segment are read as seven, and a marker is missed.
    let short = [0xff, 0xe0, 0, 6, 1, 2, 3, 4];
    let image = behind_the_start(&grey(), &short);
    assert_eq!(read_headers(&image).unwrap().scales, (0, 0, 0, 0));
    let mut out = vec![7u8; 8 * 8 * 4];
    assert_eq!(decode_frame(&image, 8, 8, &mut out), Err(DecodeFailure::Pixels));
    let image = behind_the_start(&grey(), &[0xff, 0xe0, 0, 6, 1, 2, 3, 4, 5]);
    assert_eq!(read_headers(&image).unwrap().scales, (1, 0, 0, 0));
    assert_eq!(decode_frame(&image, 8, 8, &mut out), Ok(()));
    // Tables of either width, several to a segment; the last one of a number counts.
    let mut tables = vec![0x01];
    tables.extend([9; 64]);
    tables.push(0x13);
    tables.extend([0x12, 0x34].repeat(64));
    tables.push(0x01);
    tables.extend([11; 64]);
    let image = behind_the_start(&grey(), &segment(0xdb, &tables));
    assert_eq!(read_headers(&image).unwrap().scales, (1, 11, 0, 0x1234));
    let image = behind_the_start(&grey(), &segment(0xdd, &[0x12, 0x34]));
    assert_eq!(read_headers(&image).unwrap().restart, 0x1234);
    let image = behind_the_start(&grey(), &segment(0xe0, b"AVI1\0\0"));
    assert_eq!(read_headers(&image).unwrap().category, 11);
    // There is nothing to say where there is no scan, or a length makes no sense.
    assert!(read_headers(&grey()[..100]).is_none());
    assert!(read_headers(&behind_the_start(&grey(), &[0xff, 0xfe, 0, 1])).is_none());
    assert!(read_headers(&behind_the_start(&grey(), &[0xff, 0xfe, 0xff, 0xff])).is_none());
    assert!(read_headers(&grey()[1..]).is_none());
}

#[test]
fn wherever_the_decoder_finds_a_size_the_headers_have_it() {
    let mut images = vec![grey(), headers(0xc0, &[0x22, 0x11, 0x11], &[1, 2, 3])];
    images.push(behind_the_start(&grey(), &segment(0xe0, b"JFIF\0\x01\x02")));
    images.push(behind_the_start(&grey(), &segment(0xe1, b"Exif\0\0abcdef")));
    images.push(behind_the_start(&grey(), &segment(0xe2, b"ICC_PROFILE\0\x01\x01profile")));
    images.push(behind_the_start(&grey(), &segment(0xe2, b"MPF\0abcdef")));
    images.push(behind_the_start(&grey(), &segment(0xed, b"Photoshop 3.0\0abcdef")));
    images.push(behind_the_start(&grey(), &segment(0xee, b"Adobe\0\x64\0\0\0\0\x01")));
    images.push(behind_the_start(&grey(), &segment(0xdd, &[0, 1])));
    let mut out = vec![];
    let mut found = 0;
    for image in &images {
        for at in 0..image.len() {
            for value in [0, 1, 2, 3, 6, 7, 0x10, 0xc0, 0xc4, 0xd8, 0xd9, 0xda, 0xe0, 0xee, 0xfe, 0xff] {
                let mut bytes = image.clone();
                bytes[at] = value;
                if let Err(DecodeFailure::Size { width, height }) = decode_frame(&bytes, 0, 0, &mut out) {
                    let p = read_headers(&bytes).unwrap().frame.unwrap();
                    let word = |at: usize| u16::from_be_bytes([bytes[at], bytes[at + 1]]);
                    assert_eq!((word(p + 7), word(p + 5)), (width, height));
                    found += 1;
                }
            }
        }
    }
    assert!(found > 1000, "{found}");
}

/// A grey image whose tables have this scale and these categories, the shortest code first, with
/// one code for the end of a block; `data` follows its scan header.
fn grey_of(size: (u16, u16), scale: u16, categories: &[u8], restart: u16, data: &[u8]) -> Vec<u8> {
    let mut out = vec![0xff, 0xd8];
    let mut table = vec![0x10];
    table.extend([(scale >> 8) as u8, scale as u8].repeat(64));
    out.extend(segment(0xdb, &table));
    let mut frame = vec![8];
    frame.extend(size.1.to_be_bytes().iter().chain(&size.0.to_be_bytes()));
    frame.extend([1, 1, 0x11, 0]);
    out.extend(segment(0xc0, &frame));
    for (class, meanings) in [(0x00, categories), (0x10, &[0][..])] {
        let mut codes = vec![class];
        codes.extend((0..16).map(|i| (i < meanings.len()) as u8));
        codes.extend(meanings);
        out.extend(segment(0xc4, &codes));
    }
    out.extend(segment(0xdd, &restart.to_be_bytes()));
    out.extend(segment(0xda, &[1, 1, 0x00, 0, 63, 0]));
    out.extend(data);
    out.extend([0xff, 0xd9]);
    out
}

/// Bits as the bytes of a scan, filled up with ones.
fn packed(bits: &str) -> Vec<u8> {
    let bits: Vec<u8> = bits.bytes().filter(|b| *b != b' ').map(|b| b - b'0').collect();
    let mut out = vec![];
    for chunk in bits.chunks(8) {
        let byte = (0..8).fold(0, |byte, i| byte << 1 | chunk.get(i).unwrap_or(&1));
        out.push(byte);
        if byte == 0xff {
            out.push(0);
        }
    }
    out
}

#[test]
fn coefficients_that_could_be_scaled_too_far_are_refused() {
    // The largest difference in each of two blocks: code 0, fifteen ones, end of block.
    let two = packed(&"0 111111111111111 0".repeat(2));
    let mut out = vec![7u8; 16 * 8 * 4];
    for scale in [65535, 40000, 32769] {
        let image = grey_of((16, 8), scale, &[15], 0, &two);
        assert!(check_layout(&image) && !check_scales(&image), "{scale}");
        assert_eq!(decode_frame(&image, 16, 8, &mut out), Err(DecodeFailure::Scales));
    }
    assert!(out.iter().all(|b| *b == 7));
    // Two differences of 32767, times 32768, and what is added to them are within 31 bits.
    let image = grey_of((16, 8), 32768, &[15], 0, &two);
    assert!(check_scales(&image));
    assert_eq!(decode_frame(&image, 16, 8, &mut out), Ok(()));
    assert_eq!(out, [255; 16 * 8 * 4]);
    // Of one block any scale is.
    let image = grey_of((8, 8), 65535, &[15], 0, &packed("0 111111111111111 0"));
    assert!(check_scales(&image));
    let mut out = vec![7u8; 8 * 8 * 4];
    assert_eq!(decode_frame(&image, 8, 8, &mut out), Ok(()));
    assert_eq!(out, [255; 8 * 8 * 4]);
}

#[test]
fn usual_scales_of_usual_sizes_fit() {
    let usual: Vec<u8> = (0..12).collect();
    for (size, scale) in [((640, 480), 218), ((1280, 720), 72), ((1920, 1080), 32), ((3840, 2160), 8)] {
        assert!(check_scales(&grey_of(size, scale, &usual, 0, &[])), "{size:?}");
        assert!(!check_scales(&grey_of(size, scale + 1, &usual, 0, &[])), "{size:?}");
        // With a restart in each row nothing is near the limit.
        assert!(check_scales(&grey_of(size, 1000, &usual, size.0 / 8, &[])), "{size:?}");
    }
    // Components count each with its own blocks and scale.
    let mut image = headers(0xc0, &[0x22, 0x11, 0x11], &[1, 2, 3]);
    let at = image.windows(2).position(|w| w == [0xff, 0xc0]).unwrap();
    image[at + 5..at + 9].copy_from_slice(&[0x20, 0, 0x20, 0]);
    // 512 by 512 units of four blocks of luma and one of each chroma; six bits.
    let limit = (i32::MAX - 1028) / 63 / (512 * 512);
    assert_eq!(limit, 130);
    for (luma, chroma, fits) in [(32, 130, true), (33, 130, false), (32, 131, false)] {
        let mut image = image.clone();
        let mut table = vec![1];
        table.extend([chroma; 64]);
        image[7..71].fill(luma);
        image[at + 15] = 1;
        image[at + 18] = 1;
        assert_eq!(check_scales(&behind_the_start(&image, &segment(0xdb, &table))), fits);
    }
    // A progressive image keeps its coefficients in 16 bits.
    let mut image = grey_of((1920, 1080), 65535, &[15], 0, &[]);
    assert!(!check_scales(&image));
    let at = image.windows(2).position(|w| w == [0xff, 0xc0]).unwrap();
    image[at + 1] = 0xc2;
    assert!(check_scales(&image));
}

#[test]
fn restarts_and_scans_count_in_the_scales() {
    // A hundred blocks, each the largest difference and a restart: 10, fifteen ones, end of block.
    let block = packed("10 111111111111111 0");
    let mut restarted = vec![];
    for i in 0..100u8 {
        restarted.extend(&block);
        if i < 99 {
            restarted.extend([0xff, 0xd0 + i % 8]);
        }
    }
    let size = (80, 80);
    let mut out = vec![7u8; 80 * 80 * 4];
    let image = grey_of(size, 1008, &[0, 15], 1, &restarted);
    assert!(check_scales(&image));
    assert_eq!(decode_frame(&image, 80, 80, &mut out), Ok(()));
    assert_eq!(out, [255; 80 * 80 * 4]);
    assert!(!check_scales(&grey_of(size, 1009, &[0, 15], 1, &restarted)));
    // Without restarts all hundred blocks are added up.
    assert!(check_scales(&grey_of(size, 655, &[0, 15], 0, &[])));
    assert!(!check_scales(&grey_of(size, 656, &[0, 15], 0, &[])));
    // Where a restart is missing zeros are decoded: they must not be a difference.
    assert!(check_scales(&grey_of(size, 1008, &[0, 15], 1, &block)));
    assert_eq!(decode_frame(&grey_of(size, 1008, &[0, 15], 1, &block), 80, 80, &mut out), Ok(()));
    assert!(!check_scales(&grey_of(size, 656, &[15, 0], 1, &block)));
    // Codes and intervals that come later are not known.
    for later in [0xc4, 0xdd] {
        let mut data = block.clone();
        data.extend([0xff, later]);
        assert!(!check_scales(&grey_of(size, 656, &[0, 15], 1, &data)));
    }
    let mut data = block.clone();
    data.extend([0xff, 0xc4]);
    assert!(check_scales(&grey_of(size, 656, &[0, 14], 0, &block)));
    assert!(!check_scales(&grey_of(size, 656, &[0, 14], 0, &data)));
    // The sums go on from scan to scan.
    let mut data = block.clone();
    data.extend([0xff, 0xda]);
    assert!(check_scales(&grey_of(size, 327, &[0, 15], 0, &data)));
    assert!(!check_scales(&grey_of(size, 328, &[0, 15], 0, &data)));
}

#[test]
fn a_frame_of_another_size_is_refused() {
    let mut out = vec![7u8; 16 * 8 * 4];
    let failure = DecodeFailure::Size { width: 8, height: 8 };
    assert_eq!(decode_frame(&grey(), 16, 8, &mut out), Err(failure));
    assert!(out.iter().all(|b| *b == 7));
    assert_eq!(decode_frame(&grey(), 8, 16, &mut out), Err(failure));
}

#[test]
fn headers_that_make_no_sense_are_refused() {
    let mut out = vec![0u8; 8 * 8 * 4];
    assert_eq!(decode_frame(b"not a jpeg", 8, 8, &mut out), Err(DecodeFailure::Headers));
    assert_eq!(decode_frame(&[], 8, 8, &mut out), Err(DecodeFailure::Headers));
    assert_eq!(out.len(), 8 * 8 * 4);
}

#[test]
fn pixels_without_room_are_refused() {
    let mut out = vec![0u8; 8];
    assert_eq!(decode_frame(&grey(), 8, 8, &mut out), Err(DecodeFailure::Pixels));
    assert_eq!(out.len(), 8);
}

#[test]
fn the_size_is_held_against_the_stream() {
    assert_eq!(check_size(Some((640, 480)), 640, 480), Ok(()));
    assert_eq!(
        check_size(Some((640, 480)), 480, 640),
        Err(DecodeFailure::Size { width: 640, height: 480 })
    );
    assert_eq!(check_size(None, 640, 480), Err(DecodeFailure::Headers));
    // A size beyond 16 bits is never that of a frame.
    assert!(check_size(Some((0, 1)), 0x1_0000, 1).is_err());
}

#[test]
fn the_newest_decoded_frame_is_taken() {
    let mut d = Decoder::start(1, 1);
    assert!(d.try_recv_latest(vec![]).is_none());
    let latest = d.try_recv_latest((1..=7).map(decoded).collect()).unwrap();
    assert_eq!(latest.sequence, 7);
    assert_eq!(d.skipped(), 6);
    // The first buffers are kept, up to the limit.
    assert_eq!(d.pool, [vec![1; 4], vec![2; 4], vec![3; 4], vec![4; 4]]);
    d.recycle(vec![9; 4]);
    assert_eq!(d.pool.len(), 4);
}

#[test]
fn a_buffer_is_used_again() {
    let mut d = Decoder::start(2, 1);
    assert_eq!(d.take_buffer(), [0; 8]);
    d.recycle(vec![5; 3]);
    assert_eq!(d.take_buffer(), [5, 5, 5, 0, 0, 0, 0, 0]);
    d.recycle(vec![6; 20]);
    assert_eq!(d.take_buffer(), [6; 8]);
    assert!(d.pool.is_empty());
}

#[test]
fn the_newest_waiting_frame_is_decoded() {
    let mut d = Decoder::start(8, 8);
    let (f, back) = d.newest(frame(0, 1), &[]);
    assert_eq!((f.index, back.len(), d.skipped()), (0, 0, 0));
    let (f, back) = d.newest(frame(0, 1), &[frame(2, 2), frame(1, 3)]);
    assert_eq!((f.index, f.sequence), (1, 3));
    assert_eq!(back, [0, 2]);
    assert_eq!(d.skipped(), 2);
}

#[test]
fn what_becomes_of_a_decoded_frame() {
    let mut d = Decoder::start(1, 1);
    assert!(matches!(d.next_wait(), DecodeStep::Wait));
    let step = d.decoded(frame(2, 5), vec![1, 2, 3, 4], Ok(()), Duration::from_millis(3));
    let sent = match step {
        DecodeStep::Send(f) => f,
        other => panic!("{other:?}"),
    };
    assert_eq!((sent.sequence, sent.rgba.as_slice()), (5, [1, 2, 3, 4].as_slice()));
    assert_eq!(sent.timestamp, Duration::from_millis(5));
    assert_eq!(sent.decode_time, Duration::from_millis(3));
    assert!(matches!(d.delivered(Delivery::Sent), DecodeStep::Wait));
    assert!(matches!(d.delivered(Delivery::Full(sent)), DecodeStep::Wait));
    assert_eq!((d.skipped(), d.pool.len()), (1, 1));
    assert!(matches!(d.delivered(Delivery::Disconnected), DecodeStep::Stop));
    d.shut_down();
    assert!(matches!(d.next_wait(), DecodeStep::Stop));
    assert!(matches!(d.delivered(Delivery::Sent), DecodeStep::Stop));
}

#[test]
fn only_the_first_failures_are_worth_a_warning() {
    let mut d = Decoder::start(1, 1);
    for i in 1..=5u64 {
        let out = d.take_buffer();
        let step = d.decoded(frame(0, 1), out, Err(DecodeFailure::Pixels), Duration::from_secs(0));
        assert!(matches!(step, DecodeStep::Failed { warn } if warn == (i <= 3)));
        assert_eq!(d.failed(), i);
        assert_eq!(d.pool.len(), 1);
    }
}

#[test]
fn the_pool_holds_one_more_than_its_limit_at_most() {
    let mut d = Decoder::start(1, 1);
    for _ in 0..20 {
        let out = d.take_buffer();
        for _ in 0..6 {
            d.recycle(vec![0; 4]);
        }
        d.decoded(frame(0, 1), out, Err(DecodeFailure::Headers), Duration::from_secs(0));
        assert!(d.pool.len() <= 5);
    }
    assert_eq!(d.pool.len(), 5);
}

#[test]
fn a_damaged_jpeg_is_decoded_or_refused() {
    let whole = grey();
    let mut out = vec![0; 8 * 8 * 4];
    for end in 0..whole.len() {
        let _ = decode_frame(&whole[..end], 8, 8, &mut out);
        assert_eq!(out.len(), 256);
    }
    let mut decoded = 0;
    for at in 0..whole.len() {
        for value in [0u8, 1, 0x11, 0x7f, 0x80, 0xd8, 0xff] {
            let mut bytes = whole.clone();
            bytes[at] = value;
            if decode_frame(&bytes, 8, 8, &mut out).is_ok() {
                decoded += 1;
            }
            assert_eq!(out.len(), 256);
        }
    }
    assert!(decoded > 0);
}

#[test]
fn a_frame_is_what_the_driver_wrote_within_the_buffer() {
    assert_eq!(jpeg_len(10, 20), 10);
    assert_eq!(jpeg_len(30, 20), 20);
    assert_eq!(jpeg_len(u32::MAX, 0), 0);
}
