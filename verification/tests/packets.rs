//! Wire-level tests: the packet decoders and encoders on captured byte
//! sequences.
use acserver::packets::client::Checksum;
use acserver::packets::client::DamageUpdate;
use acserver::packets::client::Event;
use acserver::packets::server::CarList;
use acserver::packets::server::LapCompleted;
use acserver::packets::server::RaceOver;
use acserver::packets::server::UpdateSession;
use acserver::wire::Readable;
use acserver::wire::Writeable;

#[test]
fn it_works() {
    assert_eq!(2 + 2, 4);
}

#[test]
fn event_test() {
    let buffer: Vec<u8> = vec![
        1, 0, 11, 116, 62, 45, 66, 238, 67, 167, 195, 168, 53, 128, 62, 133, 102, 34, 194, 0, 0,
        226, 54, 198, 195, 210, 190, 178, 72, 6, 64,
    ];
    let mut pos: usize = 0;
    let p = Event::read(&buffer, &mut pos).unwrap();
    println!("{:?}", p);
    assert_eq!(pos, buffer.len());
}

#[test]
fn checksums_test() {
    let buffer: Vec<u8> = vec![
        65, 148, 155, 159, 112, 69, 202, 210, 175, 63, 94, 185, 81, 209, 112, 169, 122, 149, 98,
        126, 145, 191, 123, 62, 186, 49, 35, 51, 57, 44, 227, 242, 180, 44, 212, 154, 142, 58, 179,
        7, 151, 249, 214, 133, 122, 212, 210, 230, 214, 215, 24, 236, 202, 119, 52, 47, 22, 232,
        203, 108, 13, 77, 189, 47,
    ];
    let outputs = vec![
        "41949b9f7045cad2af3f5eb951d170a9",
        "7a95627e91bf7b3eba312333392ce3f2",
        "b42cd49a8e3ab30797f9d6857ad4d2e6",
        "d6d718ecca77342f16e8cb6c0d4dbd2f",
    ];
    let mut pos: usize = 0;
    let p = Checksum::read(&buffer, &mut pos).unwrap();
    for (i, f) in p.checksums.iter().enumerate() {
        let mut digest = [0u8; 16];
        digest.copy_from_slice(&f.0);
        assert_eq!(format!("{:x}", md5::Digest(digest)), outputs[i]);
    }
    assert_eq!(pos, buffer.len());
    let mut reencoded: Vec<u8> = Vec::new();
    p.write(&mut reencoded);
    assert_eq!(reencoded, buffer);
}

#[test]
fn damage_update_test() {
    let buffer: Vec<u8> = vec![
        187, 200, 186, 64, 0, 0, 0, 0, 0, 0, 0, 0, 0, 0, 0, 0, 187, 200, 186, 64,
    ];
    let mut pos: usize = 0;
    let p = DamageUpdate::read(&buffer, &mut pos).unwrap();
    println!("{:?}", p);
    assert_eq!(pos, buffer.len());
    assert_eq!(
        f32::from_bits(p.damage.0),
        f32::from_le_bytes([187, 200, 186, 64])
    );
    assert_eq!(f32::from_bits(p.damage1.0), 0.0);
    assert_eq!(f32::from_bits(p.damage2.0), 0.0);
    assert_eq!(f32::from_bits(p.damage3.0), 0.0);
    assert_eq!(
        f32::from_bits(p.damage4.0),
        f32::from_le_bytes([187, 200, 186, 64])
    );
    let mut reencoded: Vec<u8> = Vec::new();
    p.write(&mut reencoded);
    assert_eq!(reencoded, buffer);
}

#[test]
fn update_session_test() {
    let buffer: Vec<u8> = vec![
        7, 81, 117, 97, 108, 105, 102, 121, 1, 2, 10, 0, 0, 0, 0, 0, 128, 63, 0, 1, 2, 3, 4, 146,
        205, 0, 0, 0, 0, 0, 0,
    ];
    let mut pos: usize = 0;
    let p = UpdateSession::read(&buffer, &mut pos).unwrap();
    println!("{:?}", p);
    assert_eq!(pos, buffer.len());
}

#[test]
fn lap_completed_test() {
    let buffer: Vec<u8> = vec![
        255, 0, 0, 0, 0, 0, 5, 0, 255, 201, 154, 59, 0, 0, 0, 1, 255, 201, 154, 59, 0, 0, 0, 2,
        255, 201, 154, 59, 0, 0, 0, 3, 255, 201, 154, 59, 0, 0, 0, 4, 255, 201, 154, 59, 0, 0, 0,
        0, 0, 128, 63,
    ];
    let mut pos: usize = 0;
    let p = LapCompleted::read(&buffer, &mut pos).unwrap();
    println!("{:?}", p);
    assert_eq!(pos, buffer.len());
}

#[test]
fn race_best_test() {
    let buffer: Vec<u8> = vec![
        0, 120, 140, 2, 0, 1, 0, 1, 255, 201, 154, 59, 0, 0, 2, 255, 201, 154, 59, 0, 0, 3, 255,
        201, 154, 59, 0, 0, 4, 255, 201, 154, 59, 0, 0, 1,
    ];
    let mut pos: usize = 0;
    let p = RaceOver::read(&buffer, &mut pos).unwrap();
    println!("{:?}", p);
    assert_eq!(pos, buffer.len());
}

#[test]
fn car_list_test() {
    let buffer: Vec<u8> = vec![
        0x00, 0x03, 0x00, 0x14, 0x6b, 0x73, 0x5f, 0x6d, 0x65, 0x72, 0x63, 0x65, 0x64, 0x65, 0x73,
        0x5f, 0x31, 0x39, 0x30, 0x5f, 0x65, 0x76, 0x6f, 0x32, 0x06, 0x42, 0x6c, 0x75, 0x65, 0x37,
        0x31, 0x0b, 0x4e, 0xc3, 0xb8, 0x6b, 0x6b, 0x61, 0x73, 0x69, 0x69, 0x6c, 0x69, 0x00, 0x03,
        0x46, 0x49, 0x4e, 0x00, 0x00, 0x00, 0x00, 0x00, 0x00, 0x00, 0x00, 0x00, 0x00, 0x00, 0x00,
        0x00, 0x00, 0x00, 0x00, 0x00, 0x00, 0x00, 0x00, 0x00, 0x01, 0x14, 0x6b, 0x73, 0x5f, 0x6d,
        0x65, 0x72, 0x63, 0x65, 0x64, 0x65, 0x73, 0x5f, 0x31, 0x39, 0x30, 0x5f, 0x65, 0x76, 0x6f,
        0x32, 0x06, 0x42, 0x6c, 0x75, 0x65, 0x37, 0x31, 0x00, 0x00, 0x00, 0x00, 0x00, 0x00, 0x00,
        0x00, 0x00, 0x00, 0x00, 0x00, 0x00, 0x00, 0x00, 0x00, 0x00, 0x00, 0x00, 0x00, 0x00, 0x00,
        0x00, 0x00, 0x02, 0x14, 0x6b, 0x73, 0x5f, 0x6d, 0x65, 0x72, 0x63, 0x65, 0x64, 0x65, 0x73,
        0x5f, 0x31, 0x39, 0x30, 0x5f, 0x65, 0x76, 0x6f, 0x32, 0x06, 0x42, 0x6c, 0x75, 0x65, 0x37,
        0x31, 0x00, 0x00, 0x00, 0x00, 0x00, 0x00, 0x00, 0x00, 0x00, 0x00, 0x00, 0x00, 0x00, 0x00,
        0x00, 0x00, 0x00, 0x00, 0x00, 0x00, 0x00, 0x00, 0x00, 0x00,
    ];
    let mut pos: usize = 0;
    let p = CarList::read(&buffer, &mut pos).unwrap();
    let mut buffer1: Vec<u8> = Vec::new();
    p.write(&mut buffer1);
    println!("{:?} {}", p, buffer.len());
    assert_eq!(buffer, buffer1);
}
