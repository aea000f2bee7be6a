use thos::acpi;
use thos::ahci;
use thos::apic;
use thos::cpu::enable_sse;
use thos::gdt;
use thos::gdt::selectors;
use thos::idt;
use thos::mm::{init, Entry, FrameAllocator};
use thos::pci::{Config, Location, BUS_WORDS};
use thos::serial;
use thos::smp::Smp;
use thos::syscall::init_cpu;
use thos::vmm;
use thos::xhci;

fn table(sig: &[u8; 4], body: &[u8]) -> Vec<u8> {
    let mut t = sig.to_vec();
    t.extend_from_slice(&((36 + body.len()) as u32).to_le_bytes());
    t.resize(36, 0);
    t.extend_from_slice(body);
    t
}

fn rsdp(revision: u8, rsdt: u32, xsdt: u64) -> Vec<u8> {
    let mut r = b"RSD PTR ".to_vec();
    r.resize(15, 0);
    r.push(revision);
    r.extend_from_slice(&rsdt.to_le_bytes());
    r.extend_from_slice(&36u32.to_le_bytes());
    r.extend_from_slice(&xsdt.to_le_bytes());
    r.resize(40, 0);
    r
}

fn madt() -> Vec<u8> {
    let mut b = 0xFEE0_0000u32.to_le_bytes().to_vec();
    b.extend_from_slice(&1u32.to_le_bytes());
    b.extend_from_slice(&[0, 8, 0, 3, 1, 0, 0, 0]);
    b.extend_from_slice(&[0, 8, 1, 4, 2, 0, 0, 0]);
    b.extend_from_slice(&[0, 8, 2, 5, 0, 0, 0, 0]);
    b.extend_from_slice(&[1, 12, 9, 0, 0, 0, 0xC0, 0xFE, 0, 0, 0, 0]);
    b.extend_from_slice(&[2, 10, 0, 4, 2, 0, 0, 0, 5, 0]);
    table(b"APIC", &b)
}

#[test]
fn madt_lists_the_processors() {
    let mut m = vec![0u8; 0x400];
    m[0x100..0x128].copy_from_slice(&rsdp(2, 0, 0x200));
    let x = table(b"XSDT", &0x300u64.to_le_bytes());
    m[0x200..0x200 + x.len()].copy_from_slice(&x);
    let t = madt();
    m[0x300..0x300 + t.len()].copy_from_slice(&t);
    let info = match acpi::parse(&m, 0x100) {
        Ok(i) => i,
        Err(e) => panic!("{}", e),
    };
    assert_eq!(info.revision, 2);
    assert_eq!(info.local_apic_addr, 0xFEE0_0000);
    assert_eq!(info.cpus.len(), 2);
    assert_eq!((info.cpus[0].apic_id, info.cpus[0].enabled), (3, true));
    assert_eq!((info.cpus[1].apic_id, info.cpus[1].enabled), (4, false));
    assert_eq!((info.io_apics[0].id, info.io_apics[0].address), (9, 0xFEC0_0000));
    let o = &info.overrides[0];
    assert_eq!((o.source, o.gsi, o.flags), (4, 2, 5));
}

#[test]
fn bad_acpi_is_refused() {
    let mut m = vec![0u8; 0x400];
    assert_eq!(acpi::parse(&m, 0x100).err(), Some("bad RSDP signature"));
    assert_eq!(acpi::parse(&m, 0x3FF).err(), Some("ACPI table outside memory"));
    m[0x100..0x128].copy_from_slice(&rsdp(0, 0x200, 0));
    let x = table(b"RSDT", &[]);
    m[0x200..0x200 + x.len()].copy_from_slice(&x);
    assert_eq!(acpi::parse(&m, 0x100).err(), Some("no MADT (APIC) table found"));
}

#[test]
fn apic_timer_is_programmed() {
    let mut a = apic::Apic::new();
    a.set_base(0xFEE0_0000, 0x1000_0000_0000);
    assert_eq!(a.base, 0x1000_FEE0_0000);
    a.on_timer_tick();
    a.on_timer_tick();
    assert_eq!(a.ticks(), 2);
    assert_eq!(apic::timer_hz(), 100);
    // 10 ms of counting down from the top.
    assert_eq!(apic::calibrated(u32::MAX - 620_000), 62_000);
    assert_eq!(apic::eoi().reg, 0xB0);
    assert_eq!(apic::apic_id(0x0500_0000), 5);
    a.init_bsp(7, u32::MAX - 10_000);
    assert_eq!((a.bsp_apic_id(), a.counts_per_ms()), (7, 1000));
    let w = a.start_periodic_timer();
    assert_eq!((w[2].reg, w[2].value), (0x380, 10_000));
}

#[test]
fn faults_that_end_badly_have_their_own_stack() {
    let g = idt::init();
    assert_eq!(g.len(), 256);
    assert_eq!(g[8].map(|x| x.ist), Some(Some(0)));
    assert_eq!(g[2].map(|x| x.ist), Some(Some(1)));
    assert!(g[3].is_some() && g[3].unwrap().ist.is_none());
    assert_eq!(g[0x20].map(|x| x.handler), Some(idt::Handler::Timer));
    assert!(g[0x80].is_none());
    assert_eq!(idt::gate(14), g[14]);
    assert_eq!(idt::user_selectors(0x20, 0x18), (0x23, 0x1B));
    assert!(matches!(idt::fatal(0x23), idt::Verdict::Kill(_)));
    assert!(matches!(idt::fatal(0x08), idt::Verdict::Halt));
}

/// A bus with one device of this class at device 3.
fn bus(class: u32) -> Config {
    let mut w = vec![0xFFFF_FFFFu32; BUS_WORDS];
    let dev = |i: usize| 3 * 8 * 64 + i;
    for i in 0..64 {
        w[dev(i)] = 0;
    }
    w[dev(0)] = 0x2922_8086;
    w[dev(1)] = 0x0010_0000;
    w[dev(2)] = class << 8;
    w[dev(4)] = 0xE000_0004;
    w[dev(5)] = 0x0000_0001;
    w[dev(9)] = 0xFEBF_1000;
    w[dev(0x34 / 4)] = 0x40;
    w[dev(0x40 / 4)] = 0x0000_5001;
    w[dev(0x50 / 4)] = 0x0000_0011;
    Config::new(w).unwrap()
}

#[test]
fn devices_are_found_by_class() {
    let c = bus(0x01_06_01);
    let loc = c.find_ahci().unwrap();
    assert_eq!((loc.bus, loc.dev, loc.func), (0, 3, 0));
    assert!(c.find_xhci().is_none());
    assert_eq!(c.read16(loc, 2), 0x2922);
    assert_eq!(c.bar(loc, 0), 0x1_E000_0000);
    assert_eq!(c.bar(loc, 5), 0xFEBF_1000);
    assert_eq!(c.find_cap(loc, 0x11), Some(0x50));
    assert_eq!(c.find_cap(loc, 0x05), None);
    let w = c.enable_bus_master(loc);
    assert_eq!(w.value & 6, 6);
    assert_eq!(w.addr, loc.addr(4));
    assert!(Config::new(vec![0; 3]).is_none());
}

#[test]
fn controllers_reach_memory_before_they_are_refused() {
    let (w, base) = ahci::probe(&bus(0x01_06_01));
    assert_eq!(base, Ok(0xFEBF_1000));
    assert_eq!(w.unwrap().value & 6, 6);
    // A controller whose registers are nowhere.
    let mut words = vec![0xFFFF_FFFFu32; BUS_WORDS];
    for i in 0..64 {
        words[3 * 8 * 64 + i] = 0;
    }
    words[3 * 8 * 64] = 0x2922_8086;
    words[3 * 8 * 64 + 2] = 0x01_06_01 << 8;
    let (w, base) = ahci::probe(&Config::new(words).unwrap());
    assert_eq!(base, Err("AHCI BAR5 is zero"));
    assert!(w.is_some());
    let (w, base) = xhci::probe(&bus(0x01_06_01));
    assert!(w.is_none());
    assert_eq!(base, Err("no xHCI controller"));
    let (w, base) = xhci::probe(&bus(0x0C_03_30));
    assert_eq!(base, Ok(0x1_E000_0000));
    assert!(w.is_some());
}

#[test]
fn config_addresses_differ() {
    let a = Location { bus: 0, dev: 3, func: 1 };
    assert_eq!(a.addr(0x10), 0x8000_1910);
    assert_ne!(a.addr(0x10), Location { bus: 0, dev: 3, func: 2 }.addr(0x10));
}

#[test]
fn sata_port_is_found_and_commands_are_laid_out() {
    let mut regs = [ahci::PortRegs { ssts: 0, sig: 0 }; 32];
    assert!(ahci::find_port(0xF, &regs).is_err());
    regs[2] = ahci::PortRegs { ssts: 0x113, sig: 0x101 };
    assert_eq!(ahci::find_port(0xF, &regs), Ok(2));
    assert!(ahci::find_port(0x3, &regs).is_err());
    let f = ahci::fis(false, false, 0x0102_0304_0506, 8, 0);
    assert_eq!(&f[..4], &[0x27, 0x80, 0x25, 0]);
    assert_eq!(&f[4..8], &[6, 5, 4, 0x40]);
    assert_eq!(&f[8..11], &[3, 2, 1]);
    assert_eq!(&f[12..14], &[8, 0]);
    assert_eq!(ahci::reg(2, ahci::P_CI), 0x238);
    assert!(ahci::is_ready(0x50));
    assert!(!ahci::is_ready(0x80));
}

#[test]
fn ports_are_stopped_before_they_get_memory() {
    let cmd = ahci::reg(2, ahci::P_CMD);
    let stop = ahci::stop_port(2);
    assert_eq!(stop[0], ahci::Op::ClearBits(cmd, ahci::CMD_ST | ahci::CMD_FRE));
    assert_eq!(stop[1], ahci::Op::WaitClear(cmd, ahci::CMD_CR | ahci::CMD_FR, 1_000_000));
    let frames = |n: u64| {
        let mut fa = FrameAllocator::new();
        init(&mut fa, &[Entry { base: 0x10_0000, length: n * 4096, usable: true }]);
        fa
    };
    let mut fa = frames(4);
    let (d, ops) = ahci::bring_up(2, &mut fa).ok().unwrap();
    assert_eq!((d.port, d.sectors, d.depth, fa.free_frames()), (2, 0, 1, 1));
    assert_eq!(ops[0], ahci::Op::Write(ahci::reg(2, ahci::P_CLB), d.clb_phys as u32));
    assert_eq!(ops[6], ahci::Op::SetInTurn(cmd, ahci::CMD_FRE, ahci::CMD_ST));
    let mut fa = frames(0);
    assert_eq!(ahci::bring_up(2, &mut fa).err(), Some("no frame for AHCI cmd list"));
    for n in 1..3 {
        let mut fa = frames(n);
        assert_eq!(ahci::bring_up(2, &mut fa).err(), Some("no frame for AHCI cmd tables"));
        assert_eq!(fa.free_frames(), 0);
    }
}

#[test]
fn headers_say_which_way_the_data_goes() {
    let d = ahci::Disk {
        port: 2,
        clb_phys: 0x10_0000,
        ctab_phys: [0x1_2345_6000, 0x30_0000],
        sectors: 1000,
        depth: 1,
    };
    let read = ahci::transfer(&Some(d), false, 7, 2, 0x40_0000, 3).ok().unwrap();
    assert_eq!((read.header_at, read.table_at), (0x10_0060, 0x1_2345_6300));
    assert_eq!(read.header, [0x1_0005, 0, 0x2345_6300, 1]);
    let write = ahci::transfer(&Some(d), true, 7, 2, 0x40_0000, 17).ok().unwrap();
    assert_eq!((write.header_at, write.table_at), (0x10_0220, 0x30_0100));
    assert_eq!(write.header, [0x1_0045, 0, 0x30_0100, 0]);
    assert_eq!((write.ci, write.sact), (1 << 17, None));
    assert_eq!(ahci::identify(&d, 0x40_0000).header, [0x1_0005, 0, 0x2345_6000, 1]);
    assert_eq!(ahci::flush(&d, 4).header, [5, 0, 0x2345_6400, 1]);
    let queued = ahci::Disk { depth: 32, ..d };
    let write = ahci::transfer(&Some(queued), true, 7, 2, 0x40_0000, 3).ok().unwrap();
    assert_eq!((write.header[0], write.sact), (0x1_0045, Some(8)));
    let far = ahci::transfer(&Some(d), true, 999, 2, 0x40_0000, 3);
    assert_eq!(far.err(), Some("AHCI: LBA past end of disk"));
}

#[test]
fn tags_are_handed_out_once() {
    let mut free = 0b1010u32;
    let (a, f) = ahci::alloc_tag(free).unwrap();
    free = f;
    let (b, f) = ahci::alloc_tag(free).unwrap();
    assert_eq!((a, b, f), (1, 3, 0));
    assert!(ahci::alloc_tag(f).is_none());
    assert_eq!(ahci::free_tag(f, 3), 8);
}

#[test]
fn transfers_need_a_disk_and_whole_sectors() {
    assert_eq!(ahci::transfer(&None, false, 0, 1, 0, 0).err(), Some("AHCI not initialised"));
    assert_eq!(ahci::capacity_sectors(&None), 0);
    assert_eq!(ahci::transfer_size(1024), Some(2));
    assert_eq!(ahci::transfer_size(100), None);
}

#[test]
fn serial_lines_end_with_a_return() {
    let mut out = Vec::new();
    serial::print(&mut out, "a\nb");
    assert_eq!(out, b"a\r\nb");
    let mut plain = Vec::new();
    serial::print(&mut plain, "plain");
    assert_eq!(plain, b"plain");
    assert!(serial::can_send(0x20));
    assert!(!serial::can_send(0x00));
}

#[test]
fn processors_come_up_one_by_one() {
    let mut s = Smp::new();
    let start = s.init(&[0, 1, 2], 0, 0x1000);
    assert_eq!(start, vec![1, 2]);
    assert_eq!(s.cpu_count(), 3);
    assert_eq!(s.online(), 1);
    let i = s.next_cpu().unwrap();
    s.enter(i, 1, 0x2000);
    assert_eq!(s.online(), 2);
}

#[test]
fn kernel_is_never_writable_and_executable() {
    let es = [Entry { base: 0, length: 0x1_8000_0000, usable: true }];
    assert_eq!(vmm::hhdm_gib(&es), 6);
    assert_eq!(vmm::hhdm_gib(&[]), 4);
    let maps = vmm::init(
        0xFFFF_8000_0000_0000,
        &es,
        (0xFFFF_FFFF_8000_0000, 0xFFFF_FFFF_8000_2000),
        (0xFFFF_FFFF_8000_2000, 0xFFFF_FFFF_8000_3000),
        (0xFFFF_FFFF_8000_3000, 0xFFFF_FFFF_8000_3001),
        0x20_0000,
        0xFFFF_FFFF_8000_0000,
    );
    assert_eq!(maps.len(), 4 + 6 + 2 + 1 + 1);
    for m in &maps {
        assert!(m.flags & vmm::WRITABLE == 0 || m.flags & vmm::NO_EXECUTE != 0);
    }
    assert_eq!(maps[10].phys, 0x20_0000);
    assert_eq!(maps[10].flags, vmm::PRESENT);
    let (m, parents) = vmm::map_page(0x1234, 0x5678, true, true, false);
    assert_eq!((m.virt, m.phys, m.big), (0x1000, 0x5000, false));
    assert_eq!(m.flags, 7 | vmm::NO_EXECUTE);
    assert_eq!(parents, 7);
}

#[test]
fn segments_stand_in_their_order() {
    let (table, s) = gdt::segments();
    let words: Vec<u64> = table.entries().iter().map(|e| e.raw()).collect();
    assert_eq!(
        words,
        vec![0, gdt::KERNEL_CODE, gdt::KERNEL_DATA, gdt::USER_DATA, gdt::USER_CODE]
    );
    assert_eq!((s.kernel_code, s.user_code), (0x08, 0x23));
    assert_eq!(table.limit(), 39);
}

#[test]
fn selectors_suit_the_system_call() {
    let s = selectors();
    assert_eq!((s.kernel_code, s.kernel_data, s.user_data, s.user_code), (0x08, 0x10, 0x1B, 0x23));
    let m = init_cpu(0x500, 0xFFFF_8000_0000_1000);
    assert_eq!((m.efer, m.sysret_base, m.syscall_base), (0x501, 0x13, 0x08));
    assert_eq!((m.lstar, m.sfmask), (0xFFFF_8000_0000_1000, 0x4_0700));
}

#[test]
fn fault_stacks_lie_apart() {
    assert_eq!(gdt::init(0x1000, 0), (0x6000, 0xB000, 0x1_0000));
    let (a, _, _) = gdt::init(0x1000, 1);
    assert_eq!(a, 0x1_0000 + 0x5000);
}

#[test]
fn vector_registers_are_switched_on() {
    assert_eq!(enable_sse(0x8000_0015, 0x20), (0x8000_0013, 0x620));
    assert_eq!(enable_sse(0x8000_0013, 0x620), (0x8000_0013, 0x620));
}
