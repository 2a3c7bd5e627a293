use hpp_editor::animations::AnimType;
use hpp_editor::hats::{ElementError, HatElement};
use hpp_editor::hats_data::{HatType, IVec2};
use hpp_editor::ids::IdSource;
use hpp_editor::image::{
    bitmap_from_ase, AseError, AseFrame, AseSheet, AseTag, Image, ImageError,
};
use hpp_editor::path_utils::HatPath;

fn word(bytes: &mut Vec<u8>, value: u16) {
    bytes.extend_from_slice(&value.to_le_bytes());
}

fn dword(bytes: &mut Vec<u8>, value: u32) {
    bytes.extend_from_slice(&value.to_le_bytes());
}

fn text(bytes: &mut Vec<u8>, value: &str) {
    word(bytes, value.len() as u16);
    bytes.extend_from_slice(value.as_bytes());
}

fn chunk(kind: u16, data: Vec<u8>) -> Vec<u8> {
    let mut bytes = Vec::new();
    dword(&mut bytes, data.len() as u32 + 6);
    word(&mut bytes, kind);
    bytes.extend(data);
    bytes
}

fn layer_chunk(name: &str) -> Vec<u8> {
    let mut data = Vec::new();
    word(&mut data, 1); // visible
    word(&mut data, 0); // image layer
    word(&mut data, 0); // child level
    word(&mut data, 0);
    word(&mut data, 0);
    word(&mut data, 0); // normal blend mode
    data.push(255);
    data.extend_from_slice(&[0, 0, 0]);
    text(&mut data, name);
    chunk(0x2004, data)
}

fn cel_chunk(width: u16, height: u16, pixels: &[u8]) -> Vec<u8> {
    let mut data = Vec::new();
    word(&mut data, 0); // layer
    word(&mut data, 0); // x
    word(&mut data, 0); // y
    data.push(255);
    word(&mut data, 0); // raw cel
    data.extend_from_slice(&[0; 7]);
    word(&mut data, width);
    word(&mut data, height);
    data.extend_from_slice(pixels);
    chunk(0x2005, data)
}

fn tags_chunk(tags: &[(&str, u16, u16)]) -> Vec<u8> {
    let mut data = Vec::new();
    word(&mut data, tags.len() as u16);
    data.extend_from_slice(&[0; 8]);
    for (name, from, to) in tags {
        word(&mut data, *from);
        word(&mut data, *to);
        data.push(0);
        word(&mut data, 0);
        data.extend_from_slice(&[0; 6]);
        dword(&mut data, 0);
        text(&mut data, name);
    }
    chunk(0x2018, data)
}

fn frame(duration: u16, chunks: Vec<Vec<u8>>) -> Vec<u8> {
    let body: Vec<u8> = chunks.iter().flatten().copied().collect();
    let mut bytes = Vec::new();
    dword(&mut bytes, body.len() as u32 + 16);
    word(&mut bytes, 0xF1FA);
    word(&mut bytes, chunks.len() as u16);
    word(&mut bytes, duration);
    word(&mut bytes, 0);
    dword(&mut bytes, chunks.len() as u32);
    bytes.extend(body);
    bytes
}

fn file(width: u16, height: u16, frames: Vec<Vec<u8>>) -> Vec<u8> {
    let body: Vec<u8> = frames.iter().flatten().copied().collect();
    let mut bytes = Vec::new();
    dword(&mut bytes, body.len() as u32 + 128);
    word(&mut bytes, 0xA5E0);
    word(&mut bytes, frames.len() as u16);
    word(&mut bytes, width);
    word(&mut bytes, height);
    word(&mut bytes, 32); // red, green, blue, alpha
    dword(&mut bytes, 1);
    word(&mut bytes, 100);
    dword(&mut bytes, 0);
    dword(&mut bytes, 0);
    bytes.push(0);
    bytes.extend_from_slice(&[0; 3]);
    word(&mut bytes, 0);
    bytes.push(1);
    bytes.push(1);
    word(&mut bytes, 0);
    word(&mut bytes, 0);
    word(&mut bytes, 16);
    word(&mut bytes, 16);
    bytes.extend_from_slice(&[0; 84]);
    bytes.extend(body);
    bytes
}

fn opaque(width: u16, height: u16, shade: u8) -> Vec<u8> {
    let mut pixels = Vec::new();
    for i in 0..(width as usize * height as usize) {
        pixels.extend_from_slice(&[shade, i as u8, 7, 255]);
    }
    pixels
}

fn two_frames() -> Vec<u8> {
    file(
        3,
        2,
        vec![
            frame(
                120,
                vec![
                    layer_chunk("body"),
                    tags_chunk(&[("OnDuckJump", 0, 1), ("custom", 1, 1)]),
                    cel_chunk(3, 2, &opaque(3, 2, 10)),
                ],
            ),
            frame(80, vec![cel_chunk(3, 2, &opaque(3, 2, 20))]),
        ],
    )
}

/// The parts of an authored file, decoded by `asefile`.
fn parts(bytes: &[u8]) -> Option<(u16, u16, Vec<AseFrame>, Vec<AseTag>)> {
    let parsed = asefile::AsepriteFile::read(bytes).ok()?;
    let mut frames = Vec::new();
    for at in 0..parsed.num_frames() {
        let frame = parsed.frame(at);
        frames.push(AseFrame { pixels: frame.image().into_raw(), duration: frame.duration() });
    }
    let mut tags = Vec::new();
    for at in 0..parsed.num_tags() {
        let tag = parsed.tag(at);
        tags.push(AseTag {
            name: tag.name().to_string(),
            from_frame: tag.from_frame(),
            to_frame: tag.to_frame(),
        });
    }
    Some((parsed.width() as u16, parsed.height() as u16, frames, tags))
}

fn read_sheet(bytes: &[u8]) -> Option<Result<AseSheet, AseError>> {
    let (width, height, frames, tags) = parts(bytes)?;
    Some(AseSheet::new(width, height, frames, tags))
}

fn read_image(path: &HatPath, bytes: &[u8]) -> Result<Image, ImageError> {
    match parts(bytes) {
        Some((width, height, frames, tags)) => {
            Image::from_aseprite(path, width, height, frames, tags)
        }
        None => Err(ImageError::Unreadable),
    }
}

fn square(side: u16) -> Vec<u8> {
    file(
        side,
        side,
        vec![frame(
            100,
            vec![
                layer_chunk("body"),
                tags_chunk(&[("OnDefault", 0, 0)]),
                cel_chunk(side, side, &opaque(side, side, 1)),
            ],
        )],
    )
}

#[test]
fn authored_file_is_read_into_a_sheet() {
    let sheet = read_sheet(&two_frames()).unwrap().unwrap();
    assert_eq!(sheet.width(), 3);
    assert_eq!(sheet.height(), 2);
    let frames: &Vec<AseFrame> = sheet.frames();
    assert_eq!(frames.len(), 2);
    assert_eq!(frames[0].duration, 120);
    assert_eq!(frames[1].duration, 80);
    assert_eq!(frames[0].pixels, opaque(3, 2, 10));
    assert_eq!(frames[1].pixels, opaque(3, 2, 20));
    let tags = sheet.tags();
    assert_eq!(tags.len(), 2);
    assert_eq!(tags[0].name, "OnDuckJump");
    assert_eq!(tags[0].from_frame, 0);
    assert_eq!(tags[0].to_frame, 1);
    assert_eq!(tags[1].name, "custom");
    assert_eq!(tags[1].from_frame, 1);
    assert_eq!(tags[1].to_frame, 1);
}

#[test]
fn authored_file_becomes_an_image_with_animations() {
    let path = HatPath::parse("/hats/duck.aseprite");
    let image = read_image(&path, &two_frames()).unwrap();
    assert_eq!(image.width(), 3);
    assert_eq!(image.height(), 2);
    assert_eq!(image.path().unwrap().to_text(), "/hats/duck.aseprite");
    let mut ids = IdSource::new();
    let (bitmap, data) = image.to_bitmap_with_data(&mut ids);
    assert_eq!(bitmap.width(), 6);
    assert_eq!(bitmap.height(), 2);
    let data = data.unwrap();
    assert_eq!(data.animations.len(), 1);
    assert_eq!(data.animations[0].anim_type, AnimType::OnDuckJump);
    assert_eq!(data.animations[0].frames.len(), 2);
    assert_eq!(data.animations[0].frames[0].value, 0);
    assert_eq!(data.animations[0].frames[0].delay, Some(120));
    assert_eq!(data.animations[0].frames[1].value, 1);
    assert_eq!(data.animations[0].frames[1].delay, Some(80));
}

#[test]
fn a_tag_of_one_frame_gives_an_animation_of_one_frame() {
    let bytes = file(
        2,
        2,
        vec![
            frame(
                50,
                vec![
                    layer_chunk("body"),
                    tags_chunk(&[("OnPressQuack", 1, 1)]),
                    cel_chunk(2, 2, &opaque(2, 2, 1)),
                ],
            ),
            frame(70, vec![cel_chunk(2, 2, &opaque(2, 2, 2))]),
        ],
    );
    let image = read_image(&HatPath::parse("q.aseprite"), &bytes).unwrap();
    let mut ids = IdSource::new();
    let (_, data) = image.to_bitmap_with_data(&mut ids);
    let data = data.unwrap();
    assert_eq!(data.animations.len(), 1);
    assert_eq!(data.animations[0].anim_type, AnimType::OnPressQuack);
    assert_eq!(data.animations[0].frames.len(), 1);
    assert_eq!(data.animations[0].frames[0].value, 1);
    assert_eq!(data.animations[0].frames[0].delay, Some(70));
}

#[test]
fn sheet_of_an_authored_file_shows_its_frames_side_by_side() {
    let sheet = read_sheet(&two_frames()).unwrap().unwrap();
    let bitmap = bitmap_from_ase(&sheet);
    let bytes = bitmap.bytes();
    assert_eq!(bytes[0], 10);
    assert_eq!(bytes[4 * 3], 20);
    assert_eq!(bytes[4 * 6], 10);
    assert_eq!(bytes[4 * 9 + 3], 255);
}

#[test]
fn bytes_that_are_no_authored_file_are_unreadable() {
    assert!(read_sheet(&[]).is_none());
    assert!(read_sheet(b"not an aseprite file at all, not even close to one").is_none());
    let path = HatPath::parse("x.aseprite");
    assert_eq!(read_image(&path, &[1, 2, 3]).err(), Some(ImageError::Unreadable));
}

#[test]
fn a_tag_beyond_the_frames_makes_the_file_malformed() {
    let bytes = file(
        1,
        1,
        vec![frame(10, vec![layer_chunk("l"), tags_chunk(&[("ondefault", 0, 3)])])],
    );
    let path = HatPath::parse("x.aseprite");
    let error = read_image(&path, &bytes).err().unwrap();
    assert_eq!(error, ImageError::Malformed(AseError::TagOutOfRange));
}

#[test]
fn a_tag_that_ends_with_the_last_frame_is_in_range() {
    let bytes = file(
        1,
        1,
        vec![frame(
            10,
            vec![
                layer_chunk("l"),
                tags_chunk(&[("ondefault", 0, 0)]),
                cel_chunk(1, 1, &opaque(1, 1, 3)),
            ],
        )],
    );
    let sheet = read_sheet(&bytes).unwrap().unwrap();
    assert_eq!(sheet.tags().len(), 1);
    let bytes = file(
        1,
        1,
        vec![frame(10, vec![layer_chunk("l"), tags_chunk(&[("ondefault", 0, 1)])])],
    );
    assert_eq!(read_sheet(&bytes).unwrap().err(), Some(AseError::TagOutOfRange));
}

#[test]
fn the_same_bytes_hold_the_same_sheet() {
    let first = read_sheet(&two_frames()).unwrap().unwrap();
    let second = read_sheet(&two_frames()).unwrap().unwrap();
    assert_eq!(first.width(), second.width());
    assert_eq!(first.height(), second.height());
    assert_eq!(first.frames().len(), second.frames().len());
    for (a, b) in first.frames().iter().zip(second.frames()) {
        assert_eq!(a.pixels, b.pixels);
        assert_eq!(a.duration, b.duration);
    }
    for (a, b) in first.tags().iter().zip(second.tags()) {
        assert_eq!(a.name, b.name);
        assert_eq!((a.from_frame, a.to_frame), (b.from_frame, b.to_frame));
    }
}

#[test]
fn a_file_without_frames_makes_no_sheet() {
    let bytes = file(4, 4, vec![]);
    match read_sheet(&bytes) {
        Some(Err(AseError::NoFrames)) => {}
        Some(Ok(_)) => panic!("a sheet without frames"),
        Some(Err(e)) => panic!("unexpected {:?}", e),
        None => panic!("the file was refused"),
    }
    assert_eq!(
        read_image(&HatPath::parse("x.aseprite"), &bytes).err(),
        Some(ImageError::Malformed(AseError::NoFrames))
    );
}

#[test]
fn an_authored_file_with_frames_in_range_becomes_an_element() {
    let mut ids = IdSource::new();
    let image = read_image(&HatPath::parse("/hats/w.aseprite"), &square(32)).unwrap();
    let element = HatElement::load_from_image(HatType::Wearable, image, &mut ids).unwrap();
    assert_eq!(element.base().frame_size, IVec2::new(32, 32));
    assert_eq!(element.base().hat_type, HatType::Wearable);
    assert_eq!(element.animations().unwrap().len(), 1);
    assert_eq!(element.animations().unwrap()[0].anim_type, AnimType::OnDefault);
    assert_eq!(element.animations().unwrap()[0].frames.len(), 1);
    let image = read_image(&HatPath::parse("/hats/w.aseprite"), &square(64)).unwrap();
    let element = HatElement::load_from_image(HatType::Wings, image, &mut ids).unwrap();
    assert_eq!(element.base().frame_size, IVec2::new(64, 64));
}

#[test]
fn an_authored_file_with_frames_out_of_range_becomes_no_element() {
    let mut ids = IdSource::new();
    let image = read_image(&HatPath::parse("/hats/w.aseprite"), &square(16)).unwrap();
    assert_eq!(
        HatElement::load_from_image(HatType::Wearable, image, &mut ids).err(),
        Some(ElementError::FrameSizeOutOfRange)
    );
    let image = read_image(&HatPath::parse("/hats/w.aseprite"), &square(31)).unwrap();
    assert_eq!(
        HatElement::load_from_image(HatType::Wearable, image, &mut ids).err(),
        Some(ElementError::FrameSizeOutOfRange)
    );
    let image = read_image(&HatPath::parse("/hats/w.aseprite"), &square(65)).unwrap();
    assert_eq!(
        HatElement::load_from_image(HatType::FlyingPet, image, &mut ids).err(),
        Some(ElementError::FrameSizeOutOfRange)
    );
    assert_eq!(ids.take_element(), 1);
    assert_eq!(ids.take_frame(), 0);
}
