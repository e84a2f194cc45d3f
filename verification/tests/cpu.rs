//! CPU core scenarios: flags, decimal mode, addressing quirks, stack and
//! interrupt behaviour, each run on a flat 64K RAM bus.

use vintage::cpu::{Bus, Cpu, FLAG_C, FLAG_I, FLAG_N, FLAG_U, FLAG_V, FLAG_Z};

/// Test RAM is pre-filled with NOP (0xEA) so over-stepping a program
/// cannot disturb flags; every byte the CPU touches beyond the program
/// is an explicit load.
struct Ram(Box<[u8; 0x10000]>);

impl Ram {
    fn new() -> Ram {
        Ram(Box::new([0xEA; 0x10000]))
    }

    fn load(&mut self, addr: u16, bytes: &[u8]) {
        let a = addr as usize;
        self.0[a..a + bytes.len()].copy_from_slice(bytes);
    }
}

impl Bus for Ram {
    fn peek(&self, addr: u16) -> u8 {
        self.0[addr as usize]
    }
    fn after_read(&self, _addr: u16) -> Ram {
        Ram(self.0.clone())
    }
    fn after_write(&self, addr: u16, val: u8) -> Ram {
        let mut r = Ram(self.0.clone());
        r.0[addr as usize] = val;
        r
    }
    fn read(&mut self, addr: u16) -> u8 {
        self.0[addr as usize]
    }
    fn write(&mut self, addr: u16, val: u8) {
        self.0[addr as usize] = val;
    }
}

fn run_at(base: u16, bytes: &[u8], steps: usize) -> (Cpu, Ram) {
    let mut cpu = Cpu::new();
    let mut ram = Ram::new();
    ram.load(base, bytes);
    cpu.pc = base;
    for _ in 0..steps {
        cpu.step(&mut ram);
    }
    (cpu, ram)
}

fn run(bytes: &[u8], steps: usize) -> (Cpu, Ram) {
    run_at(0x1000, bytes, steps)
}

#[test]
fn adc_binary_sets_overflow_on_positive_sum_overflow() {
    let (cpu, _) = run(&[0xA9, 0x50, 0x69, 0x50], 2);
    assert_eq!(cpu.a, 0xA0);
    assert!(cpu.p & FLAG_V != 0);
    assert!(cpu.p & FLAG_N != 0);
    assert!(cpu.p & FLAG_C == 0);
    assert!(cpu.p & FLAG_Z == 0);
}

#[test]
fn adc_binary_sets_carry_and_zero() {
    let (cpu, _) = run(&[0xA9, 0xFF, 0x69, 0x01], 2);
    assert_eq!(cpu.a, 0x00);
    assert!(cpu.p & FLAG_C != 0);
    assert!(cpu.p & FLAG_Z != 0);
    assert!(cpu.p & FLAG_V == 0);
    assert!(cpu.p & FLAG_N == 0);
}

#[test]
fn adc_decimal_classic_58_plus_46() {
    let (cpu, _) = run(&[0xF8, 0xA9, 0x58, 0x69, 0x46], 3);
    assert_eq!(cpu.a, 0x04);
    assert!(cpu.p & FLAG_C != 0);
    // NMOS quirk: N and V come from the pre-adjust binary sum ($9E).
    assert!(cpu.p & FLAG_N != 0);
    assert!(cpu.p & FLAG_V != 0);
    assert!(cpu.p & FLAG_Z == 0);
}

#[test]
fn adc_decimal_99_plus_01_sets_n_and_z_together() {
    let (cpu, _) = run(&[0xF8, 0xA9, 0x99, 0x69, 0x01], 3);
    assert_eq!(cpu.a, 0x00);
    assert!(cpu.p & FLAG_C != 0);
    // The famous NMOS case: N from binary intermediate ($9A) while Z from
    // the decimal result ($00) — both set at once.
    assert!(cpu.p & FLAG_N != 0);
    assert!(cpu.p & FLAG_Z != 0);
}

#[test]
fn sbc_decimal_borrows_via_nines_complement() {
    let (cpu, _) = run(&[0xF8, 0xA9, 0x00, 0x38, 0xE9, 0x01], 4);
    assert_eq!(cpu.a, 0x99);
    assert!(cpu.p & FLAG_C == 0);
    // NMOS: SBC flags come from the binary result ($FF).
    assert!(cpu.p & FLAG_N != 0);
    assert!(cpu.p & FLAG_Z == 0);
}

#[test]
fn sbc_decimal_plain_subtraction() {
    let (cpu, _) = run(&[0xF8, 0xA9, 0x46, 0x38, 0xE9, 0x12], 4);
    assert_eq!(cpu.a, 0x34);
    assert!(cpu.p & FLAG_C != 0);
}

#[test]
fn jmp_indirect_wraps_within_page() {
    let (mut cpu, mut ram) = (Cpu::new(), Ram::new());
    ram.load(0x0800, &[0x6C, 0xFF, 0x10]);
    ram.load(0x10FF, &[0x78]);
    ram.load(0x1000, &[0x34]);
    cpu.pc = 0x0800;
    cpu.step(&mut ram);
    assert_eq!(cpu.pc, 0x3478);
}

#[test]
fn indexed_read_charges_page_cross_penalty() {
    let (cpu, _) = run(&[0xA2, 0x01, 0xBD, 0xFF, 0x0F], 2);
    assert_eq!(cpu.cycles, 7);
    let (cpu, _) = run(&[0xA2, 0x00, 0xBD, 0x00, 0x0F], 2);
    assert_eq!(cpu.cycles, 6);
}

#[test]
fn indexed_store_never_charges_page_penalty() {
    let (cpu, _) = run(&[0xA2, 0x01, 0x9D, 0xFF, 0x0F], 2);
    assert_eq!(cpu.cycles, 7);
}

#[test]
fn branch_cycles_charge_on_take_and_page_cross() {
    let (cpu, _) = run(&[0xD0, 0x05], 1);
    assert_eq!(cpu.cycles, 3);
    assert_eq!(cpu.pc, 0x1007);

    let (cpu, _) = run_at(0x10F8, &[0xD0, 0x0E], 1);
    assert_eq!(cpu.cycles, 4);
    assert_eq!(cpu.pc, 0x1108);

    let (cpu, _) = run(&[0xA9, 0x00, 0xD0, 0x05], 2);
    assert_eq!(cpu.cycles, 4);
    assert_eq!(cpu.pc, 0x1004);
}

#[test]
fn zero_page_indexed_wraps_at_page_boundary() {
    let (mut cpu, mut ram) = (Cpu::new(), Ram::new());
    ram.load(0x1000, &[0xA2, 0x02, 0xB5, 0xFF]);
    ram.load(0x0001, &[0x42]);
    cpu.pc = 0x1000;
    for _ in 0..2 {
        cpu.step(&mut ram);
    }
    assert_eq!(cpu.a, 0x42);
}

#[test]
fn indirect_y_pointer_wraps_at_page_boundary() {
    let (mut cpu, mut ram) = (Cpu::new(), Ram::new());
    ram.load(0x1000, &[0xA0, 0x01, 0xB1, 0xFF]);
    ram.load(0x00FF, &[0x34]);
    ram.load(0x0000, &[0x12]);
    ram.load(0x1235, &[0x77]);
    cpu.pc = 0x1000;
    for _ in 0..2 {
        cpu.step(&mut ram);
    }
    assert_eq!(cpu.a, 0x77);
}

#[test]
fn php_sets_break_plp_masks_it() {
    let (cpu, ram) = run(&[0x08, 0x28], 2);
    // S starts at $FD after reset, so the first push lands at $01FD.
    assert_eq!(ram.0[0x01FD], 0x34);
    assert_eq!(cpu.s, 0xFD);
    assert_eq!(cpu.p, 0x24);
}

#[test]
fn brk_pushes_pc_plus_two_and_sets_i() {
    let (mut cpu, mut ram) = (Cpu::new(), Ram::new());
    ram.load(0x1000, &[0x00]);
    ram.load(0xFFFE, &[0x00, 0x20]);
    cpu.pc = 0x1000;
    cpu.step(&mut ram);
    assert_eq!(cpu.pc, 0x2000);
    assert_eq!(cpu.s, 0xFA);
    assert_eq!(ram.0[0x01FD], 0x10);
    assert_eq!(ram.0[0x01FC], 0x02);
    assert_eq!(ram.0[0x01FB], 0x34);
    assert!(cpu.p & FLAG_I != 0);
    assert_eq!(cpu.cycles, 7);
}

#[test]
fn rti_restores_p_and_pc_masking_break() {
    let (mut cpu, mut ram) = (Cpu::new(), Ram::new());
    ram.load(0x1000, &[0x40]);
    ram.load(0x01FE, &[0x15]);
    ram.load(0x01FF, &[0x00]);
    ram.load(0x0100, &[0x20]);
    cpu.pc = 0x1000;
    cpu.step(&mut ram);
    assert_eq!(cpu.pc, 0x2000);
    assert_eq!(cpu.p, 0x25);
    assert_eq!(cpu.cycles, 6);
}

#[test]
fn rol_shifts_carry_in_and_out() {
    let (cpu, _) = run(&[0xA9, 0x80, 0x38, 0x2A], 3);
    assert_eq!(cpu.a, 0x01);
    assert!(cpu.p & FLAG_C != 0);
    assert!(cpu.p & FLAG_N == 0);
    assert!(cpu.p & FLAG_Z == 0);
}

#[test]
fn lsr_moves_bit_zero_to_carry() {
    let (cpu, _) = run(&[0xA9, 0x01, 0x4A], 2);
    assert_eq!(cpu.a, 0x00);
    assert!(cpu.p & FLAG_C != 0);
    assert!(cpu.p & FLAG_Z != 0);
    assert!(cpu.p & FLAG_N == 0);
}

#[test]
fn stack_pointer_wraps_within_page_one() {
    let (cpu, ram) = run(&[0xA9, 0x02, 0xAA, 0x9A, 0x08, 0x08, 0x08, 0x08], 7);
    assert_eq!(cpu.s, 0xFE);
    assert_eq!(ram.0[0x0100], 0x34);
}

#[test]
fn reset_loads_vector_and_initializes_state() {
    let (mut cpu, mut ram) = (Cpu::new(), Ram::new());
    ram.load(0xFFFC, &[0x00, 0xF0]);
    cpu.reset(&mut ram);
    assert_eq!(cpu.pc, 0xF000);
    assert_eq!(cpu.s, 0xFD);
    assert!(cpu.p & FLAG_I != 0);
    assert!(cpu.p & FLAG_U != 0);
}

#[test]
fn nmi_takes_vector_pushing_break_clear() {
    let (mut cpu, mut ram) = (Cpu::new(), Ram::new());
    ram.load(0x1000, &[0xEA]);
    ram.load(0xFFFA, &[0x00, 0xE0]);
    cpu.pc = 0x1000;
    cpu.nmi();
    cpu.step(&mut ram);
    assert_eq!(cpu.pc, 0xE000);
    assert_eq!(cpu.s, 0xFA);
    assert_eq!(ram.0[0x01FB], 0x24);
    assert!(cpu.p & FLAG_I != 0);
    assert_eq!(cpu.cycles, 7);
}

#[test]
fn irq_masked_by_i_flag_then_taken_after_cli() {
    let (mut cpu, mut ram) = (Cpu::new(), Ram::new());
    ram.load(0x1000, &[0x58, 0xEA]);
    ram.load(0xFFFE, &[0x00, 0x30]);
    cpu.pc = 0x1000;
    cpu.irq_line = true;

    cpu.step(&mut ram);
    assert_eq!(cpu.pc, 0x1001);
    assert_eq!(cpu.cycles, 2);

    cpu.step(&mut ram);
    assert_eq!(cpu.pc, 0x3000);
    assert_eq!(cpu.cycles, 9);
    assert!(cpu.p & FLAG_I != 0);
}

fn bcd(v: u32) -> u8 {
    ((v / 10) * 16 + v % 10) as u8
}

#[test]
fn decimal_adc_and_sbc_on_every_bcd_pair() {
    // SED; CLC or SEC; LDA #a; ADC/SBC #m — on one RAM image, rewritten per case.
    let mut ram = Ram::new();
    for a in 0..100u32 {
        for m in 0..100u32 {
            for carry in [false, true] {
                for sbc in [false, true] {
                    let op = if sbc { 0xE9 } else { 0x69 };
                    let set_c = if carry { 0x38 } else { 0x18 };
                    ram.load(0x1000, &[0xF8, set_c, 0xA9, bcd(a), op, bcd(m)]);
                    let mut cpu = Cpu::new();
                    cpu.pc = 0x1000;
                    for _ in 0..4 {
                        cpu.step(&mut ram);
                    }
                    let c = carry as i32;
                    let (value, carry_out) = if sbc {
                        let d = a as i32 - m as i32 - (1 - c);
                        ((d + 100) % 100, d >= 0)
                    } else {
                        let s = a as i32 + m as i32 + c;
                        (s % 100, s >= 100)
                    };
                    assert_eq!(cpu.a, bcd(value as u32), "a={a} m={m} c={carry} sbc={sbc}");
                    assert_eq!(cpu.p & FLAG_C != 0, carry_out, "carry a={a} m={m}");
                }
            }
        }
    }
}

#[test]
fn binary_sbc_matches_adc_of_the_complement() {
    for a in [0x00u8, 0x01, 0x40, 0x7F, 0x80, 0xC3, 0xFF] {
        for m in [0x00u8, 0x01, 0x3F, 0x80, 0x9A, 0xFF] {
            for carry in [0x18u8, 0x38] {
                // lda #a; clc/sec; sbc #m   versus   lda #a; clc/sec; adc #!m
                let (sbc, _) = run(&[0xA9, a, carry, 0xE9, m], 3);
                let (adc, _) = run(&[0xA9, a, carry, 0x69, !m], 3);
                assert_eq!(sbc.a, adc.a, "a={a:02X} m={m:02X} carry op {carry:02X}");
                assert_eq!(sbc.p, adc.p, "a={a:02X} m={m:02X} carry op {carry:02X}");
            }
        }
    }
}

/// A bus that records every write, to watch read-modify-write cycles.
struct Logged {
    ram: Ram,
    writes: Vec<(u16, u8)>,
}

impl Bus for Logged {
    fn peek(&self, addr: u16) -> u8 {
        self.ram.peek(addr)
    }
    fn after_read(&self, addr: u16) -> Logged {
        Logged { ram: self.ram.after_read(addr), writes: self.writes.clone() }
    }
    fn after_write(&self, addr: u16, val: u8) -> Logged {
        let mut writes = self.writes.clone();
        writes.push((addr, val));
        Logged { ram: self.ram.after_write(addr, val), writes }
    }
    fn read(&mut self, addr: u16) -> u8 {
        self.ram.read(addr)
    }
    fn write(&mut self, addr: u16, val: u8) {
        self.writes.push((addr, val));
        self.ram.write(addr, val);
    }
}

#[test]
fn rmw_writes_the_old_value_back_before_the_result() {
    let mut bus = Logged { ram: Ram::new(), writes: Vec::new() };
    bus.ram.load(0x1000, &[0xEE, 0x00, 0x02]);
    bus.ram.load(0x0200, &[0x7F]);
    let mut cpu = Cpu::new();
    cpu.pc = 0x1000;
    let before = cpu.cycles;
    cpu.step(&mut bus);
    assert_eq!(bus.writes, vec![(0x0200, 0x7F), (0x0200, 0x80)]);
    assert!(cpu.p & FLAG_N != 0);
    assert!(cpu.p & FLAG_Z == 0);
    assert_eq!(cpu.cycles - before, 6);
}
