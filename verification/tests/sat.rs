//! ATA disks behind SCSI.

use disktui_lite::sat::{
    ata_status_from_sense, decode_words, identify_cdb, identify_from, identify_succeeded, probe,
    probe_step, sense_is_readable, strip_padding, ProbeStep, SgReply,
};

#[test]
fn identify_cdb16_matches_sat_spec() {
    let cdb = identify_cdb(16);
    assert_eq!(cdb.len(), 16);
    assert_eq!(&cdb[..2], &[0x85, 0x04]);
    assert_eq!(cdb[2], 0x0E);
    assert_eq!(cdb[6], 0x01);
    assert_eq!(cdb[13], 0x40);
    assert_eq!(cdb[14], 0xEC);
}

#[test]
fn identify_cdb12_matches_sat_spec() {
    let cdb = identify_cdb(12);
    assert_eq!(cdb.len(), 16);
    assert_eq!(&cdb[..2], &[0xA1, 0x08]);
    assert_eq!(cdb[2], 0x0E);
    assert_eq!(cdb[4], 0x01);
    assert_eq!(cdb[8], 0x40);
    assert_eq!(cdb[9], 0xEC);
}

#[test]
fn decode_words_swaps_bytes_and_trims() {
    let mut data = vec![0u8; 512];
    data[54] = b'D';
    data[55] = b'W';
    data[56] = 0x20;
    data[57] = b' ';
    assert_eq!(decode_words(&data, 27, 2), "WD");
}

#[test]
fn ata_status_return_descriptor_parsed() {
    let mut sb = vec![0u8; 32];
    sb[0] = 0x72;
    sb[7] = 0x0E;
    sb[8] = 0x09;
    sb[9] = 0x0C;
    sb[8 + 2 + 3] = 0x00;
    sb[8 + 2 + 13] = 0x50;
    assert_eq!(ata_status_from_sense(&sb), Some((0x00, 0x50)));
}

#[test]
fn ata_status_return_error_detected() {
    let mut sb = vec![0u8; 32];
    sb[0] = 0x72;
    sb[8] = 0x09;
    sb[9] = 0x0C;
    sb[8 + 2 + 3] = 0x04;
    sb[8 + 2 + 13] = 0x41;
    let (err, st) = ata_status_from_sense(&sb).unwrap();
    assert!(err != 0 || st & 0x01 != 0);
}

#[test]
fn rotation_rate_field_location() {
    let mut data = vec![0u8; 512];
    data[434] = 0x01;
    data[435] = 0x00;
    assert_eq!(u16::from_le_bytes([data[434], data[435]]), 1);
    data[54] = b'X';
    assert_eq!(probe(&data).unwrap().rotation_rate, 1);
}

#[test]
fn sense_without_a_status_descriptor() {
    assert_eq!(ata_status_from_sense(&vec![0x70; 32]), None);
    let mut sb = vec![0u8; 32];
    sb[0] = 0x72;
    sb[8] = 0x01;
    sb[9] = 0x02;
    sb[12] = 0x09;
    sb[13] = 0x0C;
    sb[12 + 2 + 3] = 1;
    sb[12 + 2 + 13] = 2;
    assert_eq!(ata_status_from_sense(&sb), Some((1, 2)));
    sb[9] = 0xff;
    assert_eq!(ata_status_from_sense(&sb), None);
}

#[test]
fn sense_that_ends_too_early_is_not_read() {
    assert!(!sense_is_readable(&vec![]));
    assert!(sense_is_readable(&vec![0x70]));
    let mut sb = vec![0u8; 22];
    sb[0] = 0x72;
    sb[8] = 0x09;
    sb[9] = 0x0C;
    assert!(!sense_is_readable(&sb));
    sb.push(0);
    assert!(!sense_is_readable(&sb));
    sb.push(0);
    assert!(sense_is_readable(&sb));
}

#[test]
fn commands_are_judged() {
    let good = || SgReply {
        rc: 0,
        host_status: 0,
        status: 0,
        driver_status: 0,
        sense: vec![0; 32],
    };
    let with_registers = |err: u8, st: u8| {
        let mut sense = vec![0u8; 32];
        sense[0] = 0x72;
        sense[8] = 0x09;
        sense[9] = 0x0C;
        sense[13] = err;
        sense[23] = st;
        SgReply { rc: 0, host_status: 0, status: 2, driver_status: 8, sense }
    };
    assert!(identify_succeeded(&good()));
    assert!(!identify_succeeded(&SgReply { rc: -1, ..good() }));
    assert!(!identify_succeeded(&SgReply { rc: -1, sense: vec![], ..good() }));
    assert!(good().has_answer());
    assert!(!SgReply { host_status: 1, ..good() }.has_answer());
    assert!(!identify_succeeded(&SgReply { host_status: 1, ..good() }));
    assert!(!identify_succeeded(&SgReply { status: 8, ..good() }));
    assert!(!identify_succeeded(&SgReply { driver_status: 1, ..good() }));
    assert!(!identify_succeeded(&SgReply { status: 2, ..good() }));
    assert!(identify_succeeded(&with_registers(0, 0x50)));
    assert!(!identify_succeeded(&with_registers(4, 0x50)));
    for bit in [0x80, 0x20, 0x08, 0x01] {
        assert!(!identify_succeeded(&with_registers(0, bit)));
    }
}

fn put_words(data: &mut [u8], start: usize, text: &str) {
    for (i, b) in text.bytes().enumerate() {
        data[2 * start + (i ^ 1)] = b;
    }
}

#[test]
fn disks_are_identified() {
    let mut data = vec![b' '; 512];
    data[0] = 0x40;
    data[1] = 0;
    put_words(&mut data, 27, "EXAMPLE DISK 42");
    put_words(&mut data, 10, "0123456789ABCDEFGHIJ");
    put_words(&mut data, 20, "not the serial");
    data[434] = 0x20;
    data[435] = 0x1C;
    let id = probe(&data).unwrap();
    assert_eq!(id.model, "EXAMPLE DISK 42");
    assert_eq!(id.serial, "0123456789ABCDEFGHIJ");
    assert_eq!(id.rotation_rate, 7200);
    // A packet device, and a disk without a model.
    data[1] = 0x80;
    assert!(probe(&data).is_none());
    data[1] = 0;
    put_words(&mut data, 27, "                                        ");
    assert!(probe(&data).is_none());
    assert!(identify_from(&data, "M".to_string(), "S".to_string()).is_some());
    assert!(identify_from(&data, String::new(), "S".to_string()).is_none());
}

#[test]
fn padding_is_stripped_and_bad_bytes_are_marked() {
    assert_eq!(strip_padding(" \0 a b\0\0"), "a b");
    assert_eq!(strip_padding(" \t"), "\t");
    assert_eq!(strip_padding("\0"), "");
    let mut data = vec![0u8; 512];
    data[1] = 0xff;
    data[0] = b'x';
    assert_eq!(decode_words(&data, 0, 1), "\u{fffd}x");
}

#[test]
fn the_short_form_follows_the_long_one() {
    let reply = |rc: i32| SgReply {
        rc,
        host_status: 0,
        status: 0,
        driver_status: 0,
        sense: vec![0; 32],
    };
    assert_eq!(probe_step(None), ProbeStep::Send(16));
    assert_eq!(probe_step(Some((16, &reply(0)))), ProbeStep::Read);
    assert_eq!(probe_step(Some((16, &reply(-1)))), ProbeStep::Send(12));
    assert_eq!(probe_step(Some((12, &reply(0)))), ProbeStep::Read);
    assert_eq!(probe_step(Some((12, &reply(-1)))), ProbeStep::GiveUp);
}
