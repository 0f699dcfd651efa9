use baduhan::images::{
    b64_decode, b64_encode, find_subslice, find_terminator, image_from_bytes, parse_file_payload,
    png_dimensions, ImgScan, ParsedImage, Seg,
};

const MARKER: &[u8] = b"\x1b]1337;File=";

/// Tiny valid PNG header (1×1 IHDR; body truncated, fine for dims).
fn tiny_png() -> Vec<u8> {
    let mut p = vec![0x89, b'P', b'N', b'G', 0x0D, 0x0A, 0x1A, 0x0A];
    p.extend_from_slice(&13u32.to_be_bytes());
    p.extend_from_slice(b"IHDR");
    p.extend_from_slice(&7u32.to_be_bytes()); // width 7
    p.extend_from_slice(&3u32.to_be_bytes()); // height 3
    p.extend_from_slice(&[8, 6, 0, 0, 0]);
    p
}

#[test]
fn b64_roundtrip() {
    for case in [&b""[..], b"f", b"fo", b"foo", b"foob", b"hello world!"] {
        assert_eq!(b64_decode(b64_encode(case).as_bytes()).unwrap(), case);
    }
    assert_eq!(b64_encode(b"hello"), "aGVsbG8=");
    assert_eq!(b64_decode(b"aGVsbG8=").unwrap(), b"hello");
}

#[test]
fn png_dims() {
    assert_eq!(png_dimensions(&tiny_png()), Some((7, 3)));
    assert_eq!(png_dimensions(b"not a png"), None);
}

fn seq(png: &[u8]) -> Vec<u8> {
    let mut s = MARKER.to_vec();
    s.extend_from_slice(format!("inline=1;size={}:", png.len()).as_bytes());
    s.extend_from_slice(b64_encode(png).as_bytes());
    s.push(0x07);
    s
}

#[test]
fn scan_extracts_image_between_plain_bytes() {
    let mut scan = ImgScan::default();
    let mut input = b"before ".to_vec();
    input.extend_from_slice(&seq(&tiny_png()));
    input.extend_from_slice(b" after");
    let segs = scan.feed(&input);
    assert_eq!(segs.len(), 3);
    assert!(matches!(&segs[0], Seg::Plain(p) if p == b"before "));
    assert!(matches!(&segs[1], Seg::Image(i) if i.width == 7 && i.height == 3));
    assert!(matches!(&segs[2], Seg::Plain(p) if p == b" after"));
}

#[test]
fn scan_handles_chunk_splits() {
    let mut scan = ImgScan::default();
    let full = seq(&tiny_png());
    // Split mid-base64.
    let (a, b) = full.split_at(MARKER.len() + 20);
    let segs = scan.feed(a);
    assert!(segs.is_empty());
    let mut tail = b.to_vec();
    tail.extend_from_slice(b"done");
    let segs = scan.feed(&tail);
    assert_eq!(segs.len(), 2);
    assert!(matches!(&segs[0], Seg::Image(i) if i.width == 7));
    assert!(matches!(&segs[1], Seg::Plain(p) if p == b"done"));
}

#[test]
fn multipart_imgcat_protocol() {
    // Exactly what modern imgcat emits: MultipartFile header, b64 folded
    // into 200-char FilePart chunks, FileEnd.
    let png = tiny_png();
    let b64 = b64_encode(&png);
    let mut input = Vec::new();
    input.extend_from_slice(b"\x1b]1337;MultipartFile=inline=1;size=999\x07");
    for chunk in b64.as_bytes().chunks(200) {
        input.extend_from_slice(b"\x1b]1337;FilePart=");
        input.extend_from_slice(chunk);
        input.push(0x07);
    }
    input.extend_from_slice(b"\x1b]1337;FileEnd\x07");
    input.extend_from_slice(b"\nprompt$ ");

    let mut scan = ImgScan::default();
    // Feed in awkward 37-byte chunks to exercise the pending path.
    let mut segs = Vec::new();
    for c in input.chunks(37) {
        segs.extend(scan.feed(c));
    }
    let images: Vec<&ParsedImage> = segs
        .iter()
        .filter_map(|s| match s {
            Seg::Image(i) => Some(i),
            _ => None,
        })
        .collect();
    assert_eq!(images.len(), 1);
    assert_eq!((images[0].width, images[0].height), (7, 3));
    // Trailing plain text survives.
    let plain: Vec<u8> = segs
        .iter()
        .filter_map(|s| match s {
            Seg::Plain(p) => Some(p.clone()),
            _ => None,
        })
        .flatten()
        .collect();
    assert_eq!(plain, b"\nprompt$ ");
}

#[test]
fn shell_integration_1337_subcommands_are_consumed() {
    let mut scan = ImgScan::default();
    let segs = scan.feed(b"\x1b]1337;RemoteHost=user@host\x07ok");
    assert_eq!(segs.len(), 1);
    assert!(matches!(&segs[0], Seg::Plain(p) if p == b"ok"));
}

#[test]
fn non_inline_transfers_are_ignored() {
    let mut s = MARKER.to_vec();
    s.extend_from_slice(b"name=eA==;size=3:");
    s.extend_from_slice(b64_encode(&tiny_png()).as_bytes());
    s.push(0x07);
    let segs = ImgScan::default().feed(&s);
    assert!(segs.is_empty() || !matches!(segs[0], Seg::Image(_)));
}

#[test]
fn bad_base64_is_refused() {
    assert!(b64_decode(b"a*b").is_none());
    assert_eq!(b64_decode(b"aGVs\r\nbG8=").unwrap(), b"hello");
}

#[test]
fn a_terminator_is_bel_or_st_or_an_escape() {
    assert_eq!(find_terminator(b"ab\x07c"), Some((2, 1)));
    assert_eq!(find_terminator(b"ab\x1b\\c"), Some((2, 2)));
    assert_eq!(find_terminator(b"ab\x1bc"), Some((2, 1)));
    assert_eq!(find_terminator(b"abc"), None);
    assert_eq!(find_subslice(b"hello", b"ll"), Some(2));
    assert_eq!(find_subslice(b"hello", b"lo!"), None);
}

#[test]
fn an_image_without_a_png_header_waits_for_its_size() {
    let mut payload = b"inline=1:".to_vec();
    payload.extend_from_slice(b64_encode(b"GIF89a...").as_bytes());
    assert!(matches!(parse_file_payload(&payload), Some(Seg::Unsized(d)) if d == b"GIF89a..."));
    assert!(image_from_bytes(b"GIF89a...".to_vec(), None).is_none());
    let img = image_from_bytes(b"GIF89a...".to_vec(), Some((4, 5))).unwrap();
    assert_eq!((img.width, img.height), (4, 5));
    let img = image_from_bytes(tiny_png(), None).unwrap();
    assert_eq!((img.width, img.height), (7, 3));
}

fn shown(segs: &[Seg]) -> (Vec<u8>, Vec<(u32, u32)>) {
    let mut plain = Vec::new();
    let mut images = Vec::new();
    for s in segs {
        match s {
            Seg::Plain(p) => plain.extend_from_slice(p),
            Seg::Image(i) => images.push((i.width, i.height)),
            Seg::Unsized(_) => images.push((0, 0)),
        }
    }
    (plain, images)
}

#[test]
fn output_may_be_cut_anywhere() {
    let mut all = b"one".to_vec();
    all.extend_from_slice(&seq(&tiny_png()));
    all.extend_from_slice(b"two\x1b]133;A\x07\x1b]1337;RemoteHost=x\x1b\\three");
    all.extend_from_slice(&seq(&tiny_png()));
    let want = shown(&ImgScan::default().feed(&all));
    assert_eq!(want.0, b"onetwo\x1b]133;A\x07three");
    assert_eq!(want.1, vec![(7, 3), (7, 3)]);
    for i in 0..=all.len() {
        let mut scan = ImgScan::default();
        let mut segs = scan.feed(&all[..i]);
        segs.extend(scan.feed(&all[i..]));
        assert_eq!(shown(&segs), want);
    }
    let mut scan = ImgScan::default();
    let mut segs = Vec::new();
    for b in &all {
        segs.extend(scan.feed(&[*b]));
    }
    assert_eq!(shown(&segs), want);
}

#[test]
fn a_prefix_that_is_cut_is_held_back() {
    let mut scan = ImgScan::default();
    assert!(scan.feed(b"\x1b]13").is_empty());
    let full = seq(&tiny_png());
    let segs = scan.feed(&full[4..]);
    assert_eq!(segs.len(), 1);
    assert!(matches!(&segs[0], Seg::Image(i) if i.width == 7 && i.height == 3));
    // What turns out to be something else comes out after all.
    assert!(scan.feed(b"\x1b]1").is_empty());
    assert!(matches!(&scan.feed(b"2")[..], [Seg::Plain(p)] if p == b"\x1b]12"));
}

#[test]
fn an_end_in_parts_is_waited_for() {
    let mut scan = ImgScan::default();
    assert!(scan.feed(b"\x1b]1337;RemoteHost=x\x1b").is_empty());
    let segs = scan.feed(b"\\ok");
    assert!(matches!(&segs[..], [Seg::Plain(p)] if p == b"ok"));
}

#[test]
fn a_transfer_in_parts_is_used_up() {
    let png = tiny_png();
    let b64 = b64_encode(&png);
    let (p1, p2) = b64.as_bytes().split_at(10);
    let mut scan = ImgScan::default();
    assert!(scan.classify(b"MultipartFile=inline=1").is_none());
    assert!(scan.classify(&[&b"FilePart="[..], p1].concat()).is_none());
    assert!(scan.classify(&[&b"FilePart="[..], p2].concat()).is_none());
    assert!(matches!(scan.classify(b"FileEnd"), Some(Seg::Image(i)) if i.png == png));
    assert!(scan.classify(b"FileEnd").is_none());
}
