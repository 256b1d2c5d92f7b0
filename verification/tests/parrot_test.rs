use bt_only_headers::c1::s1_rev;
use bt_only_headers::parrot::{
    cmd_le_long_term_key_request_reply, cmd_le_set_random_address, Parrot, Stage,
};

const BUF_LEN: usize = 8096;

fn buffer(bytes: &[u8]) -> Vec<u8> {
    let mut buf = vec![0u8; BUF_LEN];
    buf[..bytes.len()].copy_from_slice(bytes);
    buf
}

/// A peripheral connected as in a recorded Just Works pairing: the central
/// 50:c2:e8:d6:0e:26 (public) on handle 0x0040, our random address
/// d3:56:d6:74:33:06.
fn connected() -> Parrot {
    let mut p = Parrot::new();
    p.ra = [0x6, 0x33, 0x74, 0xd6, 0x56, 0xd3];
    let writes = p.on_read(
        &buffer(&[
            0x4, 0x3e, 0x13, 0x1, 0x0, 0x40, 0x0, 0x1, 0x0, 0x26, 0xe, 0xd6, 0xe8, 0xc2, 0x50,
            0x30, 0x0, 0x0, 0x0, 0xc0, 0x3, 0x1,
        ]),
        22,
    );
    assert_eq!(writes.len(), 2);
    p
}

fn paired() -> Parrot {
    let mut p = connected();
    p.on_read(
        &buffer(&[0x2, 0x40, 0x20, 0xb, 0x0, 0x7, 0x0, 0x6, 0x0, 0x1, 0x4, 0x0, 0x2d, 0x10, 0xe, 0xf]),
        16,
    );
    p.on_read(
        &buffer(&[
            0x2, 0x40, 0x20, 0x15, 0x0, 0x11, 0x0, 0x6, 0x0, 0x3, 0x4f, 0x40, 0x76, 0x6b, 0x82,
            0xfc, 0xa8, 0xa6, 0x5, 0x14, 0x99, 0x54, 0xf5, 0xa4, 0x4b, 0x3a,
        ]),
        26,
    );
    p
}

#[test]
fn test_parrot_setup_steps() {
    let p = Parrot::new();
    let steps = p.setup_steps();
    assert_eq!(steps.len(), 14);
    assert_eq!(steps[0].command, vec![0x01, 0x03, 0x0C, 0x00]);
    assert_eq!(steps[1].command, vec![0x01, 0x01, 0x20, 0x08, 0xff, 0x05, 0, 0, 0, 0, 0, 0]);
    assert_eq!(steps[8].command.len(), 252);
    assert_eq!(&steps[8].command[..9], &[0x01, 0x13, 0x0C, 0xF8, 0x4D, 0x79, 0x20, 0x50, 0x69]);
    assert!(steps[8].command[9..].iter().all(|b| *b == 0));
    assert_eq!(
        steps[9].command,
        vec![0x01, 0x05, 0x20, 0x06, 0xa9, 0x36, 0x3c, 0xde, 0x52, 0xd7]
    );
    assert_eq!(steps[9].command, cmd_le_set_random_address(&p.ra).to_vec());
    assert_eq!(steps[11].command.len(), 36);
    assert_eq!(steps[12].command, vec![0x01, 0x25, 0x20, 0x00]);
    assert_eq!(steps[12].reads, 2);
    assert_eq!(steps[13].command, vec![0x01, 0x0A, 0x20, 0x01, 0x01]);
    assert!(steps.iter().enumerate().all(|(i, s)| i == 12 || s.reads == 1));
}

#[test]
fn test_parrot_waits_for_connection() {
    let mut p = Parrot::new();
    assert!(p.on_read(&buffer(&[0x4, 0xe, 0x4, 0x1, 0x3, 0xc, 0x0]), 7).is_empty());
    // A connection complete event in a buffer that was not read does not count.
    assert!(p
        .on_read(&buffer(&[0x4, 0x3e, 0x13, 0x1, 0x0, 0x40, 0x0]), 0)
        .is_empty());
    assert_eq!(p.stage, Stage::AwaitingConnection);
}

#[test]
fn test_parrot_connection_complete() {
    let mut p = Parrot::new();
    let writes = p.on_read(
        &buffer(&[
            0x4, 0x3e, 0x13, 0x1, 0x0, 0x40, 0xf1, 0x1, 0x1, 0x26, 0xe, 0xd6, 0xe8, 0xc2, 0x50,
            0x30, 0x0, 0x0, 0x0, 0xc0, 0x3, 0x1,
        ]),
        22,
    );
    assert_eq!(p.stage, Stage::Pairing);
    // Only the low twelve bits of the handle are kept.
    assert_eq!(p.conhandle, [0x40, 0x01]);
    assert_eq!(p.iat, 0x01);
    assert_eq!(p.ia, [0x26, 0xe, 0xd6, 0xe8, 0xc2, 0x50]);
    assert_eq!(
        writes,
        vec![
            vec![0x2, 0x40, 0x01, 0x7, 0x0, 0x3, 0x0, 0x4, 0x0, 0x2, 0xf4, 0x0],
            vec![0x2, 0x40, 0x01, 0x7, 0x0, 0x3, 0x0, 0x4, 0x0, 0x3, 0xf7, 0x0],
        ]
    );
}

#[test]
fn test_parrot_recorded_pairing() {
    let mut p = connected();
    assert_eq!(p.conhandle, [0x40, 0x00]);
    assert_eq!(p.iat, 0x00);

    // Pairing request -> pairing response, as recorded.
    let writes = p.on_read(
        &buffer(&[0x2, 0x40, 0x20, 0xb, 0x0, 0x7, 0x0, 0x6, 0x0, 0x1, 0x4, 0x0, 0x2d, 0x10, 0xe, 0xf]),
        16,
    );
    assert_eq!(
        writes,
        vec![vec![0x2, 0x40, 0x0, 0xb, 0x0, 0x7, 0x0, 0x6, 0x0, 0x2, 0x3, 0x0, 0x1, 0x10, 0x0, 0x1]]
    );
    assert_eq!(p.preq, [0x1, 0x4, 0x0, 0x2d, 0x10, 0xe, 0xf]);
    assert_eq!(p.pres, [0x2, 0x3, 0x0, 0x1, 0x10, 0x0, 0x1]);
    assert_eq!(p.max_key_size, 0x10);

    // Pairing confirm -> our confirm value, as recorded.
    let writes = p.on_read(
        &buffer(&[
            0x2, 0x40, 0x20, 0x15, 0x0, 0x11, 0x0, 0x6, 0x0, 0x3, 0x4f, 0x40, 0x76, 0x6b, 0x82,
            0xfc, 0xa8, 0xa6, 0x5, 0x14, 0x99, 0x54, 0xf5, 0xa4, 0x4b, 0x3a,
        ]),
        26,
    );
    assert_eq!(
        writes,
        vec![vec![
            0x2, 0x40, 0x0, 0x15, 0x0, 0x11, 0x0, 0x6, 0x0, 0x3, 0xdc, 0x79, 0x69, 0x34, 0xd6,
            0x98, 0xba, 0xd9, 0xfd, 0x91, 0x79, 0x1f, 0x58, 0x25, 0x8, 0x4f,
        ]]
    );

    // Pairing random matching the central's confirm value -> our random.
    let writes = p.on_read(
        &buffer(&[
            0x2, 0x40, 0x20, 0x15, 0x0, 0x11, 0x0, 0x6, 0x0, 0x4, 0x65, 0x5, 0x8d, 0x11, 0xb,
            0x62, 0x4b, 0x30, 0xdd, 0x7f, 0x7d, 0x73, 0x20, 0xf2, 0xec, 0x74,
        ]),
        26,
    );
    assert_eq!(
        writes,
        vec![vec![
            0x2, 0x40, 0x0, 0x15, 0x0, 0x11, 0x0, 0x6, 0x0, 0x4, 0x6d, 0xde, 0x61, 0xf5, 0x68,
            0x16, 0x96, 0x67, 0x8a, 0x5e, 0x28, 0x70, 0x1a, 0x34, 0x38, 0x0,
        ]]
    );

    // Long term key request -> reply with the short term key.
    let writes = p.on_read(&buffer(&[0x04, 0x3e, 0xd, 0x5, 0x40, 0x00]), 16);
    let stk = s1_rev(&[0; 16], &p.rrandom, &p.irandom);
    assert_eq!(
        writes,
        vec![cmd_le_long_term_key_request_reply(&[0x40, 0x00], &stk).to_vec()]
    );
    assert_eq!(&writes[0][..6], &[0x1, 0x1a, 0x20, 0x12, 0x40, 0x00]);

    // Encryption change -> encryption information and central identification.
    let writes = p.on_read(&buffer(&[0x4, 0x8, 0x4, 0x0, 0x40, 0x0, 0x1]), 7);
    assert_eq!(
        writes,
        vec![
            vec![
                0x2, 0x40, 0x0, 0x15, 0x0, 0x11, 0x0, 0x6, 0x0, 0x6, 0x08, 0x7A, 0xC7, 0xFB, 0x8C,
                0x86, 0xF3, 0xCF, 0x36, 0xF4, 0x0C, 0xD8, 0xDD, 0xA2, 0xF9, 0xD3,
            ],
            vec![
                0x2, 0x40, 0x0, 0xf, 0x0, 0xb, 0x0, 0x6, 0x0, 0x7, 0x0, 0x2, 0x50, 0xc2, 0xe8,
                0xd6, 0xe, 0x26, 0x9, 0xa,
            ],
        ]
    );
    assert_eq!(p.stage, Stage::Done);
    assert!(p.on_read(&buffer(&[0x4, 0x8, 0x4, 0x0, 0x40, 0x0, 0x1]), 7).is_empty());
}

#[test]
fn test_parrot_mismatching_random_fails() {
    let mut p = paired();
    let writes = p.on_read(
        &buffer(&[
            0x2, 0x40, 0x20, 0x15, 0x0, 0x11, 0x0, 0x6, 0x0, 0x4, 0x66, 0x5, 0x8d, 0x11, 0xb,
            0x62, 0x4b, 0x30, 0xdd, 0x7f, 0x7d, 0x73, 0x20, 0xf2, 0xec, 0x74,
        ]),
        26,
    );
    assert_eq!(
        writes,
        vec![vec![0x2, 0x40, 0x20, 0x6, 0x0, 0x2, 0x0, 0x6, 0x0, 0x5, 0x4]]
    );
    assert_eq!(p.irandom[0], 0x66);
    assert_eq!(p.stage, Stage::Pairing);
}

#[test]
fn test_parrot_attribute_requests() {
    let mut p = connected();
    let writes = p.on_read(
        &buffer(&[0x2, 0x40, 0x20, 0xb, 0x0, 0x7, 0x0, 0x4, 0x0, 0x10, 0x01, 0x00, 0xff, 0xff, 0x00, 0x28]),
        16,
    );
    assert_eq!(
        writes,
        vec![vec![
            0x2, 0x40, 0x0, 0xc, 0x0, 0x8, 0x0, 0x4, 0x0, 0x11, 0x6, 0x03, 0x00, 0x07, 0x00, 0x00,
            0x28,
        ]]
    );
    // Another group type is not answered.
    let writes = p.on_read(
        &buffer(&[0x2, 0x40, 0x20, 0xb, 0x0, 0x7, 0x0, 0x4, 0x0, 0x10, 0x01, 0x00, 0xff, 0xff, 0x01, 0x28]),
        16,
    );
    assert!(writes.is_empty());
    let writes = p.on_read(
        &buffer(&[0x2, 0x40, 0x20, 0xd, 0x0, 0x9, 0x0, 0x4, 0x0, 0x6, 0x01, 0x00, 0xff, 0xff, 0x00, 0x28, 0x12, 0x18]),
        18,
    );
    assert_eq!(
        writes,
        vec![vec![0x2, 0x40, 0x0, 0x9, 0x0, 0x5, 0x0, 0x4, 0x0, 0x1, 0x6, 0x1, 0x0, 0xa]]
    );
    // Unknown data is not answered.
    assert!(p.on_read(&buffer(&[0x2, 0x41, 0x20]), 3).is_empty());
    assert_eq!(p.stage, Stage::Pairing);
}
