use chess_study::glyph::{decode_glyph, image_or_error, GlyphImage};
use chess_study::pieces::{Piece, PieceImages, PieceKind, Side};
use chess_study::study::StudyError;

/// Two by two pixels: red, green, half transparent blue, fully transparent.
const SMALL_PNG: [u8; 78] = [
    0x89, 0x50, 0x4e, 0x47, 0x0d, 0x0a, 0x1a, 0x0a, 0x00, 0x00, 0x00, 0x0d, 0x49, 0x48, 0x44,
    0x52, 0x00, 0x00, 0x00, 0x02, 0x00, 0x00, 0x00, 0x02, 0x08, 0x06, 0x00, 0x00, 0x00, 0x72,
    0xb6, 0x0d, 0x24, 0x00, 0x00, 0x00, 0x15, 0x49, 0x44, 0x41, 0x54, 0x78, 0xda, 0x63, 0xf8,
    0xcf, 0xc0, 0xf0, 0x1f, 0x0c, 0x81, 0x74, 0x03, 0x97, 0x88, 0x1c, 0x03, 0x00, 0x3d, 0xf7,
    0x05, 0xb8, 0x84, 0x91, 0x38, 0x97, 0x00, 0x00, 0x00, 0x00, 0x49, 0x45, 0x4e, 0x44, 0xae,
    0x42, 0x60, 0x82,
];

/// Three by one pixels in grey: black, middle grey, white.
const GREY_PNG: [u8; 69] = [
    0x89, 0x50, 0x4e, 0x47, 0x0d, 0x0a, 0x1a, 0x0a, 0x00, 0x00, 0x00, 0x0d, 0x49, 0x48, 0x44,
    0x52, 0x00, 0x00, 0x00, 0x03, 0x00, 0x00, 0x00, 0x01, 0x08, 0x00, 0x00, 0x00, 0x00, 0x3e,
    0x8b, 0x4b, 0x68, 0x00, 0x00, 0x00, 0x0c, 0x49, 0x44, 0x41, 0x54, 0x78, 0xda, 0x63, 0x60,
    0x68, 0xf8, 0x0f, 0x00, 0x02, 0x03, 0x01, 0x80, 0x1a, 0x9c, 0x26, 0x3b, 0x00, 0x00, 0x00,
    0x00, 0x49, 0x45, 0x4e, 0x44, 0xae, 0x42, 0x60, 0x82,
];

const WHITE_KING: Piece = Piece { kind: PieceKind::King, side: Side::First };
const BLACK_PAWN: Piece = Piece { kind: PieceKind::Pawn, side: Side::Second };

#[test]
fn image_is_decoded_to_its_pixels() {
    let mut images = PieceImages::new();
    images.set(WHITE_KING, SMALL_PNG.to_vec());
    let image = decode_glyph(&images, 'K').unwrap().unwrap();
    assert_eq!(
        image,
        GlyphImage {
            width: 2,
            height: 2,
            pixels: vec![255, 0, 0, 255, 0, 255, 0, 255, 0, 0, 128, 128, 0, 0, 0, 0],
        }
    );
}

#[test]
fn grey_image_is_decoded_to_opaque_pixels() {
    let mut images = PieceImages::new();
    images.set(BLACK_PAWN, GREY_PNG.to_vec());
    let image = decode_glyph(&images, 'p').unwrap().unwrap();
    assert_eq!(image.width, 3);
    assert_eq!(image.height, 1);
    assert_eq!(image.pixels, vec![0, 0, 0, 255, 128, 128, 128, 255, 255, 255, 255, 255]);
    assert_eq!(image.pixels.len(), 4 * 3 * 1);
}

#[test]
fn symbol_without_piece_has_no_glyph() {
    let images = PieceImages::new();
    assert_eq!(decode_glyph(&images, ' '), Ok(None));
    assert_eq!(decode_glyph(&images, 'x'), Ok(None));
    assert_eq!(decode_glyph(&images, '7'), Ok(None));
}

#[test]
fn image_that_is_no_png_is_an_error() {
    let mut images = PieceImages::new();
    assert_eq!(decode_glyph(&images, 'K'), Err(StudyError::BadImage { symbol: 'K' }));
    images.set(WHITE_KING, b"not an image at all, but long enough".to_vec());
    assert_eq!(decode_glyph(&images, 'K'), Err(StudyError::BadImage { symbol: 'K' }));
    images.set(WHITE_KING, SMALL_PNG[..40].to_vec());
    assert_eq!(decode_glyph(&images, 'K'), Err(StudyError::BadImage { symbol: 'K' }));
    let mut damaged = SMALL_PNG.to_vec();
    damaged[45] ^= 0xff;
    images.set(WHITE_KING, damaged);
    assert_eq!(decode_glyph(&images, 'K'), Err(StudyError::BadImage { symbol: 'K' }));
    images.set(BLACK_PAWN, SMALL_PNG.to_vec());
    assert!(decode_glyph(&images, 'p').is_ok());
    assert_eq!(decode_glyph(&images, 'q'), Err(StudyError::BadImage { symbol: 'q' }));
}

#[test]
fn decoded_image_is_handed_on_and_its_lack_is_an_error() {
    assert_eq!(
        image_or_error('R', Some((1, 2, vec![1, 2, 3, 4, 5, 6, 7, 8]))),
        Ok(GlyphImage { width: 1, height: 2, pixels: vec![1, 2, 3, 4, 5, 6, 7, 8] })
    );
    assert_eq!(image_or_error('R', None), Err(StudyError::BadImage { symbol: 'R' }));
    assert_eq!(image_or_error('n', None), Err(StudyError::BadImage { symbol: 'n' }));
}

#[test]
fn image_error_names_the_piece() {
    assert_eq!(
        StudyError::BadImage { symbol: 'K' }.message(),
        "PNG loading failed for piece 'K'"
    );
    assert_eq!(
        StudyError::BadImage { symbol: 'q' }.message(),
        "PNG loading failed for piece 'q'"
    );
}

#[test]
fn damaged_image_gives_an_error_or_a_whole_image() {
    let mut images = PieceImages::new();
    let mut decoded = 0;
    let mut refused = 0;
    for at in 0..SMALL_PNG.len() {
        for flip in [0x01u8, 0x80, 0xff] {
            let mut data = SMALL_PNG.to_vec();
            data[at] ^= flip;
            images.set(WHITE_KING, data);
            match decode_glyph(&images, 'K') {
                Ok(Some(image)) => {
                    assert!(image.width > 0 && image.height > 0);
                    assert_eq!(
                        image.pixels.len() as u64,
                        4 * image.width as u64 * image.height as u64
                    );
                    decoded += 1;
                }
                Ok(None) => panic!("a piece always has an image or an error"),
                Err(e) => {
                    assert_eq!(e, StudyError::BadImage { symbol: 'K' });
                    refused += 1;
                }
            }
        }
    }
    assert_eq!(decoded + refused, 3 * SMALL_PNG.len());
    assert!(refused > 0);
}

fn crc32(bytes: &[u8]) -> u32 {
    let mut table = [0u32; 256];
    for (n, entry) in table.iter_mut().enumerate() {
        let mut c = n as u32;
        for _ in 0..8 {
            c = if c & 1 == 1 { (c >> 1) ^ 0xedb8_8320 } else { c >> 1 };
        }
        *entry = c;
    }
    let mut crc = 0xffff_ffffu32;
    for &byte in bytes {
        crc = table[((crc ^ byte as u32) & 0xff) as usize] ^ (crc >> 8);
    }
    !crc
}

fn chunk(kind: &[u8; 4], data: &[u8]) -> Vec<u8> {
    let mut body = kind.to_vec();
    body.extend_from_slice(data);
    let mut out = (data.len() as u32).to_be_bytes().to_vec();
    out.extend_from_slice(&body);
    out.extend_from_slice(&crc32(&body).to_be_bytes());
    out
}

/// A grey image of one shade, its pixel data stored without compression.
fn grey_png(width: u32, height: u32, shade: u8) -> Vec<u8> {
    let mut raw = Vec::new();
    for _ in 0..height {
        raw.push(0);
        raw.extend(std::iter::repeat(shade).take(width as usize));
    }
    let (mut a, mut b) = (1u32, 0u32);
    for &byte in &raw {
        a = (a + byte as u32) % 65521;
        b = (b + a) % 65521;
    }
    let mut stream = vec![0x78, 0x01];
    let blocks: Vec<&[u8]> = raw.chunks(65535).collect();
    for (i, block) in blocks.iter().enumerate() {
        stream.push(if i + 1 == blocks.len() { 1 } else { 0 });
        stream.extend_from_slice(&(block.len() as u16).to_le_bytes());
        stream.extend_from_slice(&(!(block.len() as u16)).to_le_bytes());
        stream.extend_from_slice(block);
    }
    stream.extend_from_slice(&((b << 16) | a).to_be_bytes());
    let mut header = width.to_be_bytes().to_vec();
    header.extend_from_slice(&height.to_be_bytes());
    header.extend_from_slice(&[8, 0, 0, 0, 0]);
    let mut png = SMALL_PNG[..8].to_vec();
    png.extend(chunk(b"IHDR", &header));
    png.extend(chunk(b"IDAT", &stream));
    png.extend(chunk(b"IEND", &[]));
    png
}

#[test]
fn image_is_decoded_whatever_its_size() {
    let mut images = PieceImages::new();
    images.set(WHITE_KING, grey_png(5, 3, 200));
    let image = decode_glyph(&images, 'K').unwrap().unwrap();
    assert_eq!((image.width, image.height), (5, 3));
    assert_eq!(image.pixels, [200u8, 200, 200, 255].repeat(15));
    images.set(WHITE_KING, grey_png(4097, 4096, 7));
    let image = decode_glyph(&images, 'K').unwrap().unwrap();
    assert_eq!((image.width, image.height), (4097, 4096));
    assert_eq!(image.pixels.len(), 4 * 4097 * 4096);
    assert_eq!(image.pixels[..4], [7, 7, 7, 255]);
    assert_eq!(image.pixels[image.pixels.len() - 4..], [7, 7, 7, 255]);
}
