use qoi::{
    decode_header, decode_to_buf, decode_to_vec, encode_max_len, encode_to_buf, encode_to_vec, Channels,
    ColorSpace, Decoder, Encoder, Error, Header,
};

const PADDING: [u8; 8] = [0, 0, 0, 0, 0, 0, 0, 1];

fn lcg_bytes(n: usize, seed: u32) -> Vec<u8> {
    let mut x = seed;
    let mut v = Vec::new();
    for _ in 0..n {
        x = x.wrapping_mul(1103515245).wrapping_add(12345);
        v.push((x >> 16) as u8);
    }
    v
}

#[test]
fn round_trip_rgb_and_rgba() {
    for &(w, h, ch) in &[(1u32, 1u32, 3usize), (5, 3, 3), (7, 9, 4), (64, 2, 4), (1, 100, 3)] {
        let mut data = lcg_bytes(w as usize * h as usize * ch, w * 31 + h);
        // add runs and repeats so every opcode shows up
        for k in 0..data.len() / 3 {
            if k % 5 == 0 {
                data[k] = 7;
            }
        }
        let enc = encode_to_vec(&data, w, h).unwrap();
        let (header, out) = decode_to_vec(&enc).unwrap();
        assert_eq!(out, data);
        assert_eq!(header.width, w);
        assert_eq!(header.height, h);
        assert_eq!(header.channels, if ch == 3 { Channels::Rgb } else { Channels::Rgba });
        assert!(enc.len() <= encode_max_len(w, h, ch as u8));
    }
}

#[test]
fn header_read_back() {
    let data = lcg_bytes(4 * 3 * 4, 9);
    let enc = Encoder::new(&data, 4, 3).unwrap().with_colorspace(ColorSpace::Linear);
    let bytes = enc.encode_to_vec().unwrap();
    let h = decode_header(&bytes).unwrap();
    assert_eq!(h, *enc.header());
    assert_eq!(
        h,
        Header { width: 4, height: 3, channels: Channels::Rgba, colorspace: ColorSpace::Linear }
    );
    assert_eq!(&bytes[..14], &[b'q', b'o', b'i', b'f', 0, 0, 0, 4, 0, 0, 0, 3, 4, 1]);
}

#[test]
fn single_pixel_image() {
    let data = [10u8, 20, 30];
    let bytes = encode_to_vec(&data, 1, 1).unwrap();
    // header, one OP_RGB, padding
    assert_eq!(bytes.len(), 14 + 4 + 8);
    assert_eq!(&bytes[14..18], &[0xfe, 10, 20, 30]);
    assert_eq!(&bytes[18..], &PADDING);
    let (_, out) = decode_to_vec(&bytes).unwrap();
    assert_eq!(out, data);
}

#[test]
fn uniform_image_runs() {
    let n = 200usize;
    let data: Vec<u8> = std::iter::repeat([9u8, 9, 9, 200]).take(n).flatten().collect();
    let bytes = encode_to_vec(&data, n as u32, 1).unwrap();
    let ops = &bytes[14..bytes.len() - 8];
    // the first pixel is not a run: one RGBA op of 5 bytes, then runs of the rest
    assert_eq!(&ops[..5], &[0xff, 9, 9, 9, 200]);
    let rest = n - 1;
    let runs = (rest + 61) / 62;
    assert_eq!(ops.len(), 5 + runs);
    for &b in &ops[5..] {
        assert!(b >= 0xc0 && b < 0xfe);
    }
    let (_, out) = decode_to_vec(&bytes).unwrap();
    assert_eq!(out, data);
}

#[test]
fn uniform_opaque_black_is_all_runs() {
    // the starting pixel is opaque black, so the whole image is runs
    let n = 124usize;
    let data = vec![0u8; n * 3];
    let bytes = encode_to_vec(&data, n as u32, 1).unwrap();
    assert_eq!(&bytes[14..bytes.len() - 8], &[0xc0 + 61, 0xc0 + 61]);
}

#[test]
fn diff_luma_and_index_ops() {
    // pixels: (1,1,1) diff from (0,0,0); (17,21,25) luma; (1,1,1) index hit
    let data = [1u8, 1, 1, 17, 21, 25, 1, 1, 1];
    let bytes = encode_to_vec(&data, 3, 1).unwrap();
    let ops = &bytes[14..bytes.len() - 8];
    let diff = 0x40 | (3 << 4) | (3 << 2) | 3;
    let luma0 = 0x80 | (20 + 32);
    let luma1 = ((16 - 20 + 8) << 4 | (24 - 20 + 8)) as u8;
    let hash = ((1 * 3 + 1 * 5 + 1 * 7 + 255 * 11) % 64) as u8;
    assert_eq!(ops, &[diff, luma0, luma1, hash]);
    assert_eq!(decode_to_vec(&bytes).unwrap().1, data);
}

#[test]
fn run_of_one_becomes_index() {
    let data = [50u8, 60, 70, 50, 60, 70, 200, 100, 0];
    let px = Encoder::new(&data, 3, 1).unwrap();
    let bytes = px.encode_to_vec().unwrap();
    let ops = &bytes[14..bytes.len() - 8];
    let hash = ((50 * 3 + 60 * 5 + 70 * 7 + 255 * 11) % 64) as u8;
    assert_eq!(&ops[..5], &[0xfe, 50, 60, 70, hash]);
    let reference = Encoder::new(&data, 3, 1).unwrap().with_reference(true);
    let rbytes = reference.encode_to_vec().unwrap();
    let rops = &rbytes[14..rbytes.len() - 8];
    assert_eq!(&rops[..5], &[0xfe, 50, 60, 70, 0xc0]);
    assert_eq!(decode_to_vec(&bytes).unwrap().1, data);
    assert_eq!(decode_to_vec(&rbytes).unwrap().1, data);
}

#[test]
fn max_len_formula() {
    assert_eq!(encode_max_len(2, 3, 4), 14 + 6 * 5 + 8);
    assert_eq!(encode_max_len(1, 1, 3), 14 + 4 + 8);
    assert_eq!(encode_max_len(u32::MAX, u32::MAX, 255), usize::MAX);
}

#[test]
fn encode_errors() {
    let data = [0u8; 12];
    assert!(matches!(encode_to_vec(&data, 0, 4), Err(Error::EmptyImage { width: 0, height: 4 })));
    assert!(matches!(
        encode_to_vec(&data, 100_000, 100_000),
        Err(Error::ImageTooLarge { width: 100_000, height: 100_000 })
    ));
    assert!(matches!(
        Encoder::new_raw(&data, 2, 2, 5, qoi::RawChannels::Rgb),
        Err(Error::InvalidStride { stride: 5 })
    ));
    assert!(matches!(
        Encoder::new_raw(&data, 2, 2, 7, qoi::RawChannels::Rgb),
        Err(Error::InvalidImageLength { size: 12, width: 2, height: 2 })
    ));
    let mut small = [0u8; 10];
    assert!(matches!(
        encode_to_buf(&mut small, &data, 2, 2),
        Err(Error::OutputBufferTooSmall { size: 10, required: 38 })
    ));
}

#[test]
fn encode_to_buf_writes_prefix() {
    let data = [3u8, 4, 5, 3, 4, 5];
    let mut buf = [0xaau8; 64];
    let n = encode_to_buf(&mut buf, &data, 2, 1).unwrap();
    let v = encode_to_vec(&data, 2, 1).unwrap();
    assert_eq!(n, v.len());
    assert_eq!(&buf[..n], &v[..]);
}

#[test]
fn new_raw_ignores_trailing_bytes_and_stride_gap() {
    // 2x2 Rgb rows with a 2-byte gap, plus trailing bytes
    let data = [1u8, 2, 3, 4, 5, 6, 99, 99, 7, 8, 9, 10, 11, 12, 42, 42, 42];
    let enc = Encoder::new_raw(&data, 2, 2, 8, qoi::RawChannels::Rgb).unwrap();
    let bytes = enc.encode_to_vec().unwrap();
    let (_, out) = decode_to_vec(&bytes).unwrap();
    assert_eq!(out, [1, 2, 3, 4, 5, 6, 7, 8, 9, 10, 11, 12]);
}

#[test]
fn decode_errors() {
    assert!(matches!(decode_header(&[b'q', b'o']), Err(Error::UnexpectedBufferEnd)));
    let mut h = vec![b'q', b'o', b'i', b'x', 0, 0, 0, 1, 0, 0, 0, 1, 3, 0];
    assert!(matches!(decode_header(&h), Err(Error::InvalidMagic { magic: 0x716f6978 })));
    h[3] = b'f';
    h[12] = 5;
    assert!(matches!(decode_header(&h), Err(Error::InvalidChannels { channels: 5 })));
    h[12] = 3;
    h[13] = 2;
    assert!(matches!(decode_header(&h), Err(Error::InvalidColorSpace { colorspace: 2 })));
    h[13] = 0;
    h[7] = 0;
    assert!(matches!(decode_header(&h), Err(Error::EmptyImage { width: 0, height: 1 })));
    h[7] = 1;
    let mut full = h.clone();
    full.push(0xfe);
    full.push(1);
    assert!(matches!(decode_to_vec(&full), Err(Error::UnexpectedBufferEnd)));
    full.push(2);
    full.push(3);
    full.extend_from_slice(&[0, 0, 0, 0, 0, 0, 0, 2]);
    assert!(matches!(decode_to_vec(&full), Err(Error::InvalidPadding)));
    let n = full.len();
    full[n - 1] = 1;
    full.push(77);
    let (_, out) = decode_to_vec(&full).unwrap();
    assert_eq!(out, [1, 2, 3]);
}

#[test]
fn decoder_channel_coercion() {
    let data = [1u8, 2, 3, 4, 5, 6];
    let bytes = encode_to_vec(&data, 2, 1).unwrap();
    let dec = Decoder::new(&bytes).unwrap().with_channels(Channels::Rgba);
    assert_eq!(dec.decode_to_vec().unwrap(), [1, 2, 3, 255, 4, 5, 6, 255]);
    let data4 = [1u8, 2, 3, 9, 4, 5, 6, 8];
    let bytes4 = encode_to_vec(&data4, 2, 1).unwrap();
    let dec4 = Decoder::new(&bytes4).unwrap().with_channels(Channels::Rgb);
    assert_eq!(dec4.decode_to_vec().unwrap(), [1, 2, 3, 4, 5, 6]);
}

#[test]
fn fuzz_style_headers() {
    for &(w, h, c) in &[(1u16, 1u16, 3u8), (260, 1, 4), (17, 33, 3), (260, 260, 4)] {
        let mut v = vec![b'q', b'o', b'i', b'f', 0, 0, (w >> 8) as u8, w as u8, 0, 0, (h >> 8) as u8, h as u8, c, 0];
        v.extend(lcg_bytes(300, w as u32 + h as u32));
        v.extend_from_slice(&PADDING);
        let expected = Header {
            width: w as u32,
            height: h as u32,
            channels: if c == 4 { Channels::Rgba } else { Channels::Rgb },
            colorspace: ColorSpace::Srgb,
        };
        assert_eq!(decode_header(&v).unwrap(), expected);
        if let Ok((header, out)) = decode_to_vec(&v) {
            assert_eq!(header, expected);
            assert_eq!(out.len(), header.n_bytes());
        }
    }
}

#[test]
fn decode_into_buffer() {
    let data = [5u8, 6, 7, 8, 9, 10, 11, 12];
    let bytes = encode_to_vec(&data, 1, 2).unwrap();
    let mut buf = [0x55u8; 10];
    let h = decode_to_buf(&mut buf, &bytes).unwrap();
    assert_eq!(h.channels, Channels::Rgba);
    assert_eq!(&buf[..8], &data);
    assert_eq!(&buf[8..], &[0x55, 0x55]);
    let mut small = [0u8; 7];
    assert!(matches!(
        decode_to_buf(&mut small, &bytes),
        Err(Error::OutputBufferTooSmall { size: 7, required: 8 })
    ));
    assert_eq!(small, [0u8; 7]);
}

#[test]
fn all_layouts_round_trip_with_colorspace() {
    let data: Vec<u8> = (0u8..48).collect();
    for &(layout, bpp, out) in &[
        (qoi::RawChannels::Argb, 4usize, [1u8, 2, 3, 0]),
        (qoi::RawChannels::Rgba, 4, [0, 1, 2, 3]),
        (qoi::RawChannels::Bgr, 3, [2, 1, 0, 0]),
    ] {
        let n = data.len() / bpp;
        let enc = Encoder::new_raw(&data, n as u32, 1, n * bpp, layout)
            .unwrap()
            .with_colorspace(ColorSpace::Linear);
        let bytes = enc.encode_to_vec().unwrap();
        assert!(bytes.len() <= enc.required_buf_len());
        let (h, pixels) = decode_to_vec(&bytes).unwrap();
        assert_eq!(h.colorspace, ColorSpace::Linear);
        let c = if bpp == 4 && layout != qoi::RawChannels::Bgr { 4 } else { 3 };
        assert_eq!(pixels.len(), n * c);
        assert_eq!(&pixels[..c], &out[..c]);
    }
}
