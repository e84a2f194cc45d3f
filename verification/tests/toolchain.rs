//! The toolchain around the assembler: containers, cartridge images,
//! screenshots, address arguments and listings.

use vintage::assembler::{assemble, Error};
use vintage::cpu::{Bus, Cpu};
use vintage::machine::Machine;
use vintage::toolchain::{
    assemble_source, cartridge, copy_bank_segment, cpu_snapshot, listing, palette, parse_hex,
    poke, poke_all, ppm_bytes, rom_image,
};

#[test]
fn single_bank_program_writes_a_v1_container() {
    let bin = assemble(" .org $C000\n nop\n .org $FFFC\n .word $C000").unwrap();
    assert_eq!(
        bin.to_container(),
        vec![
            b'V', b'1', 2, 0, // two segments
            0x00, 0xC0, 1, 0, 0xEA, // $C000: nop
            0xFC, 0xFF, 2, 0, 0x00, 0xC0, // $FFFC: .word $C000
        ]
    );
}

#[test]
fn banked_program_writes_a_v1b_container() {
    let bin = assemble(" .org $E000\n nop\n .bank 1\n .org $E000\n rts").unwrap();
    assert_eq!(bin.extra_banks.len(), 1);
    assert_eq!(
        bin.to_container(),
        vec![
            b'V', b'1', b'B', 2, 0, // two banks
            1, 0, 0x00, 0xE0, 1, 0, 0xEA, // bank 0
            1, 0, 0x00, 0xE0, 1, 0, 0x60, // bank 1
        ]
    );
}

#[test]
fn unused_banks_in_between_are_empty() {
    let bin = assemble(" .bank 2\n .org $E000\n nop").unwrap();
    assert!(bin.segments.is_empty());
    assert_eq!(bin.extra_banks.len(), 2);
    assert!(bin.extra_banks[0].is_empty());
    assert_eq!(bin.extra_banks[1], vec![(0xE000, vec![0xEA])]);
}

#[test]
fn error_describes_its_line() {
    let e = Error { line: 12, msg: "unknown mnemonic 'bogus'".to_string() };
    assert_eq!(e.describe(), "line 12: unknown mnemonic 'bogus'");
    let e = assemble(" nop\n\n bogus").unwrap_err();
    assert_eq!(e.describe(), "line 3: unknown mnemonic 'bogus'");
}

#[test]
fn bank_segments_outside_the_window_are_refused() {
    let mut img = [0u8; 0x2000];
    assert_eq!(
        copy_bank_segment(&mut img, 0xD000, &[1]),
        Err("segment $D000 is outside the $E000-$FFFF window".to_string())
    );
    assert_eq!(
        copy_bank_segment(&mut img, 0xFFFF, &[1, 2]),
        Err("segment $FFFF is outside the $E000-$FFFF window".to_string())
    );
    assert!(img.iter().all(|&b| b == 0), "a refused segment writes nothing");
    assert_eq!(copy_bank_segment(&mut img, 0xFFFE, &[1, 2]), Ok(()));
    assert_eq!(&img[0x1FFE..], &[1, 2]);
}

#[test]
fn rom_image_maps_segments_at_e000() {
    let img = rom_image(&[(0xE000, vec![0xA9, 0x01]), (0xFFFC, vec![0x00, 0xE0])]).unwrap();
    assert_eq!(&img[0..2], &[0xA9, 0x01]);
    assert_eq!(&img[0x1FFC..0x1FFE], &[0x00, 0xE0]);
    assert_eq!(img[2], 0);
    assert!(rom_image(&[(0x0400, vec![1])]).is_err());
}

#[test]
fn cartridge_splits_rom_and_ram_segments() {
    let bin = assemble(
        " .org $0400\n .byte 7, 8\n .org $E000\nstart: jmp start\n .org $FFFC\n .word start",
    )
    .unwrap();
    let (banks, ram) = cartridge(&bin).unwrap();
    assert_eq!(banks.len(), 1);
    assert_eq!(&banks[0][0..3], &[0x4C, 0x00, 0xE0]);
    assert_eq!(&banks[0][0x1FFC..0x1FFE], &[0x00, 0xE0]);
    assert_eq!(ram, vec![(0x0400, vec![7, 8])]);

    let mut m = Machine::with_banks(banks);
    for (addr, bytes) in &ram {
        poke(&mut m, *addr, bytes);
    }
    assert_eq!(m.read(0x0400), 7);
    assert_eq!(m.read(0x0401), 8);
    assert_eq!(m.read(0xE000), 0x4C);
}

#[test]
fn cartridge_refuses_a_bank_segment_outside_the_window() {
    let bin = assemble(" .bank 1\n .org $C000\n nop").unwrap();
    assert_eq!(
        cartridge(&bin).err(),
        Some("segment $C000 is outside the $E000-$FFFF window".to_string())
    );
}

#[test]
fn phosphor_palettes() {
    assert_eq!(palette(0), ([(51, 255, 51), (6, 12, 6)], 255));
    assert_eq!(palette(1), ([(255, 176, 0), (16, 12, 0)], 255));
    assert_eq!(palette(2), ([(230, 230, 230), (10, 10, 10)], 230));
    assert_eq!(palette(5), palette(2));
}

#[test]
fn ppm_has_header_and_rgb_pixels() {
    let out = ppm_bytes(&[0x80], 0);
    let header = b"P6\n256 192\n255\n";
    assert_eq!(&out[..header.len()], header);
    let px = &out[header.len()..];
    assert_eq!(px.len(), 8 * 3);
    assert_eq!(&px[0..3], &[51, 255, 51], "MSB pixel lit");
    assert_eq!(&px[3..6], &[6, 12, 6], "next pixel dark");

    let white = ppm_bytes(&[], 2);
    assert_eq!(white, b"P6\n256 192\n230\n".to_vec());
}

#[test]
fn hex_arguments() {
    assert_eq!(parse_hex("$C000"), Some(0xC000));
    assert_eq!(parse_hex("0xc000"), Some(0xC000));
    assert_eq!(parse_hex("0XE000"), Some(0xE000));
    assert_eq!(parse_hex("  c000 "), Some(0xC000));
    assert_eq!(parse_hex("$$12"), Some(0x12));
    assert_eq!(parse_hex("+1F"), Some(0x1F));
    assert_eq!(parse_hex("FFFF"), Some(0xFFFF));
    assert_eq!(parse_hex("10000"), None);
    assert_eq!(parse_hex(""), None);
    assert_eq!(parse_hex("$"), None);
    assert_eq!(parse_hex("+"), None);
    assert_eq!(parse_hex("-1"), None);
    assert_eq!(parse_hex("0X0x12"), None);
    assert_eq!(parse_hex("12g"), None);
}

#[test]
fn listing_rows() {
    let rows = listing(&[0xA9, 0x41, 0xAD, 0x34, 0x12, 0xE8, 0xAD], 0x8000);
    assert_eq!(
        rows,
        vec![
            "$8000  A9 41    lda #$41".to_string(),
            "$8002  AD 34 12 lda $1234".to_string(),
            "$8005  E8       inx".to_string(),
            "$8006  AD       .byte $AD".to_string(),
        ]
    );
}

#[test]
fn listing_addresses_wrap() {
    let rows = listing(&[0xEA, 0xEA], 0xFFFF);
    assert_eq!(
        rows,
        vec!["$FFFF  EA       nop".to_string(), "$0000  EA       nop".to_string()]
    );
}

#[test]
fn console_assembles_source_bytes() {
    assert_eq!(
        assemble_source(b" .org $E000\n nop"),
        Ok(vec![b'V', b'1', 1, 0, 0x00, 0xE0, 1, 0, 0xEA])
    );
    assert_eq!(
        assemble_source(" .text \"\u{e9}\"".as_bytes()),
        Ok(vec![b'V', b'1', 1, 0, 0x00, 0x00, 2, 0, 0xC3, 0xA9])
    );
    assert_eq!(assemble_source(b" nop\n bogus"), Err("line 2: unknown mnemonic 'bogus'".to_string()));
    assert_eq!(assemble_source(&[0x20, 0xFF, 0x41]), Err("source is not UTF-8".to_string()));
}

#[test]
fn cpu_snapshot_orders_the_registers() {
    let mut cpu = Cpu::new();
    cpu.a = 1;
    cpu.x = 2;
    cpu.y = 3;
    cpu.s = 0xFD;
    cpu.pc = 0xE123;
    cpu.p = 0x24;
    cpu.cycles = 0x1234;
    assert_eq!(cpu_snapshot(&cpu), [1, 2, 3, 0xFD, 0x23, 0xE1, 0x24, 0x34]);
}

#[test]
fn poke_all_writes_every_segment_in_order() {
    let mut m = Machine::new([0xEA; 0x2000]);
    let segs = vec![(0x0400u16, vec![1, 2, 3]), (0x6000u16, vec![9]), (0x0401u16, vec![7])];
    poke_all(&mut m, &segs);
    assert_eq!(m.read(0x0400), 1);
    assert_eq!(m.read(0x0401), 7, "later segments overwrite earlier ones");
    assert_eq!(m.read(0x0402), 3);
    assert_eq!(m.read(0x6000), 9);
}
