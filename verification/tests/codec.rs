use macho::image::MachHeader;
use macho::util::{bswap16, bswap32, bswap64, copy_from_slice, read_u16, read_u32, read_u64, Endian, Swap};

#[test]
fn bswap_reverses_bytes() {
    assert_eq!(bswap16(0x1234), 0x3412);
    assert_eq!(bswap32(0x12345678), 0x78563412);
    assert_eq!(bswap64(0x0102030405060708), 0x0807060504030201);
}

#[test]
fn bswap_from_swaps_only_big_endian() {
    let mut x: u32 = 0xfeedface;
    x.bswap_from(Endian::LittleEndian);
    assert_eq!(x, 0xfeedface);
    x.bswap_from(Endian::BigEndian);
    assert_eq!(x, 0xcefaedfe);
    let mut y: i16 = 0x0102;
    y.bswap();
    assert_eq!(y, 0x0201);
    let mut z: u8 = 7;
    z.bswap();
    assert_eq!(z, 7);
}

#[test]
fn reads_follow_byte_order() {
    let b = [0x01u8, 0x02, 0x03, 0x04, 0x05, 0x06, 0x07, 0x08];
    assert_eq!(read_u16(&b, 0, Endian::BigEndian), 0x0102);
    assert_eq!(read_u16(&b, 0, Endian::LittleEndian), 0x0201);
    assert_eq!(read_u32(&b, 2, Endian::BigEndian), 0x03040506);
    assert_eq!(read_u32(&b, 2, Endian::LittleEndian), 0x06050403);
    assert_eq!(read_u64(&b, 0, Endian::BigEndian), 0x0102030405060708);
    assert_eq!(read_u64(&b, 0, Endian::LittleEndian), 0x0807060504030201);
    let v: u32 = copy_from_slice(&b[0..4], Endian::BigEndian);
    assert_eq!(v, 0x01020304);
}

fn header_bytes(magic: [u8; 4], end: Endian) -> Vec<u8> {
    let mut b = magic.to_vec();
    let fields: [u32; 6] = [0x0100000c, 0x80000002, 2, 3, 0x1234, 0x00200085];
    for f in fields.iter() {
        match end {
            Endian::BigEndian => b.extend_from_slice(&f.to_be_bytes()),
            Endian::LittleEndian => b.extend_from_slice(&f.to_le_bytes()),
        }
    }
    b
}

#[test]
fn header_round_trips_for_all_four_magics() {
    let cases: [([u8; 4], Endian, u32); 4] = [
        ([0xfe, 0xed, 0xfa, 0xce], Endian::BigEndian, 0xfeedface),
        ([0xfe, 0xed, 0xfa, 0xcf], Endian::BigEndian, 0xfeedfacf),
        ([0xce, 0xfa, 0xed, 0xfe], Endian::LittleEndian, 0xfeedface),
        ([0xcf, 0xfa, 0xed, 0xfe], Endian::LittleEndian, 0xfeedfacf),
    ];
    for (magic, end, value) in cases.iter() {
        let bytes = header_bytes(*magic, *end);
        let mh = MachHeader::decode(&bytes, *end);
        assert_eq!(mh.magic, *value);
        assert_eq!(mh.cputype, 0x0100000c);
        assert_eq!(mh.cpusubtype, 0x80000002);
        assert_eq!(mh.filetype, 2);
        assert_eq!(mh.ncmds, 3);
        assert_eq!(mh.sizeofcmds, 0x1234);
        assert_eq!(mh.flags, 0x00200085);
        let mut out = Vec::new();
        mh.encode(&mut out, *end);
        assert_eq!(out, bytes);
    }
}
