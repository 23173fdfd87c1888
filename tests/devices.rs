use kernel::regs::{
    boot_csrs, csr_privilege, csr_read_only, next_mtimecmp, timer_scratch, user_return_sstatus, Mhartid,
    Mstatus, MstatusMie, MstatusMpp, Mtime, Mtimecmp, Satp, Sip, Sstatus, Tp,
};
use kernel::ringbuf::{key_press_text, read_recent_input, Console, Keyboard};
use kernel::syscall::{
    decode_syscall, print_address, print_syscall, read_syscall, syscall_action, Syscall, SyscallAction,
};
use kernel::proc::Trapframe;
use kernel::trap::{
    ack_software_interrupt, device_interrupt, kerneltrap_action, medeleg_value, mideleg_value,
    syscall_return_pc, usertrap_action, Device, Exception, MachineInterrupt, PrivLevel,
    SupervisorInterrupt, TrapAction,
};
use kernel::uart::{rx_ready, send_step, tx_empty, Uart};
use kernel::addr::{PTEFlags, PhysAddr, VirtAddr};
use kernel::paging::PageTablePool;

#[test]
fn console_fifo() {
    let mut c = Console::new();
    assert_eq!(c.read_next(), None);
    assert_eq!(c.write_str("ab"), 2);
    assert_eq!(c.write_char(b'c'), Ok(()));
    assert_eq!(c.read_next(), Some(b'a'));
    assert_eq!(c.read_next(), Some(b'b'));
    assert_eq!(c.read_next(), Some(b'c'));
    assert_eq!(c.read_next(), None);
}

#[test]
fn console_replaces_non_ascii() {
    let mut c = Console::new();
    assert_eq!(c.write_str("a\u{e9}b"), 3);
    assert_eq!(c.read_next(), Some(b'a'));
    assert_eq!(c.read_next(), Some(b'm'));
    assert_eq!(c.read_next(), Some(b'b'));
    assert_eq!(c.read_next(), None);
}

#[test]
fn console_full_at_65535() {
    let mut c = Console::new();
    let big = "z".repeat(70000);
    assert_eq!(c.write_str(&big), 65535);
    assert_eq!(c.write_char(b'q'), Err(()));
    assert_eq!(c.read_next(), Some(b'z'));
    assert_eq!(c.write_char(b'q'), Ok(()));
}

#[test]
fn keyboard_holds_back_when_full() {
    let mut k = Keyboard::new();
    for i in 0..65535u32 {
        assert_eq!(k.update_new_press((i % 200) as u8), Ok(()));
    }
    assert_eq!(k.update_new_press(250), Err(()));
    assert_eq!(k.read_next_press(), Some(0));
    assert_eq!(k.update_new_press(251), Ok(()));
    let all = read_recent_input(&mut k);
    assert_eq!(all.len(), 65535);
    assert_eq!(all[65534], 250);
    assert_eq!(k.read_next_press(), None);
}

#[test]
fn priv_levels() {
    assert_eq!(PrivLevel::try_from_code(0), Ok(PrivLevel::U));
    assert_eq!(PrivLevel::try_from_code(1), Ok(PrivLevel::S));
    assert_eq!(PrivLevel::try_from_code(3), Ok(PrivLevel::M));
    assert_eq!(PrivLevel::try_from_code(2), Err(()));
    assert_eq!(PrivLevel::M.code(), 3);
}

#[test]
fn interrupt_bits() {
    assert_eq!(Exception::MachineTimerInterrupt.bitmask(), 1 << 7);
    assert_eq!(MachineInterrupt::Timer.bitmask(), 1 << 7);
    assert_eq!(SupervisorInterrupt::Software.bitmask(), 1 << 1);
    assert_eq!(SupervisorInterrupt::Timer.bitmask(), 1 << 5);
    assert_eq!(SupervisorInterrupt::External.bitmask(), 1 << 9);
    assert_eq!(mideleg_value(), (1 << 1) | (1 << 5) | (1 << 9));
    let m = medeleg_value();
    for code in [0u32, 1, 2, 3, 4, 5, 8, 9, 12, 13, 15] {
        assert!(m & (1 << code) != 0);
    }
    assert_eq!(m.count_ones(), 11);
}

#[test]
fn trap_dispatch() {
    let int = 1u64 << 63;
    assert_eq!(usertrap_action(int | 9), TrapAction::DeviceInterrupt);
    assert_eq!(usertrap_action(int | 1), TrapAction::TimerTick);
    assert_eq!(usertrap_action(8), TrapAction::Syscall);
    assert_eq!(usertrap_action(15), TrapAction::Fatal);
    assert_eq!(usertrap_action(int | 5), TrapAction::Fatal);
    assert_eq!(kerneltrap_action(int | 9), TrapAction::DeviceInterrupt);
    assert_eq!(kerneltrap_action(int | 1), TrapAction::TimerTick);
    assert_eq!(kerneltrap_action(8), TrapAction::Fatal);
    assert_eq!(ack_software_interrupt(0b1110), 0b1100);
    assert_eq!(syscall_return_pc(0x1000), 0x1004);
    assert_eq!(syscall_return_pc(u64::MAX - 1), 2);
}

#[test]
fn device_interrupts() {
    assert_eq!(device_interrupt(0), None);
    assert_eq!(device_interrupt(1), Some((Some(Device::VirtioDisk), 1)));
    assert_eq!(device_interrupt(10), Some((Some(Device::Uart), 10)));
    assert_eq!(device_interrupt(33), Some((None, 33)));
}

#[test]
fn syscall_numbers() {
    assert_eq!(decode_syscall(10), Some(Syscall::Read));
    assert_eq!(decode_syscall(11), Some(Syscall::Print));
    assert_eq!(decode_syscall(12), Some(Syscall::Exit));
    assert_eq!(decode_syscall(13), None);
    let mut buf = vec![1u8, 2, 3];
    read_syscall(1, &mut buf);
    assert_eq!(buf, vec![1, 2, 3]);
    let mut c = Console::new();
    assert_eq!(print_syscall(&mut c, "X\n"), 2);
    assert_eq!(c.read_next(), Some(b'X'));
    assert_eq!(c.read_next(), Some(b'\n'));
}

#[test]
fn print_needs_user_readable_page() {
    let mut pool = PageTablePool::new(0x8100_0000, 8);
    let ru = PTEFlags::valid().readable().userable();
    pool.strong_map(VirtAddr::from_raw(0x3000), PhysAddr::from_raw(0x8800_0000), ru).unwrap();
    let k = PTEFlags::valid().readable();
    pool.strong_map(VirtAddr::from_raw(0x4000), PhysAddr::from_raw(0x8800_1000), k).unwrap();
    assert_eq!(print_address(&pool, 0x3010).map(|p| p.as_u64()), Some(0x8800_0010));
    assert!(print_address(&pool, 0x4010).is_none());
    assert!(print_address(&pool, 0x5010).is_none());
}

#[test]
fn csr_numbers_and_privileges() {
    assert_eq!(Mstatus.number(), 0x300);
    assert_eq!(Satp.number(), 0x180);
    assert_eq!(Sip.number(), 0x144);
    assert_eq!(csr_privilege(Mstatus.number()), Ok(PrivLevel::M));
    assert_eq!(csr_privilege(Sstatus.number()), Ok(PrivLevel::S));
    assert_eq!(csr_privilege(0xC00), Ok(PrivLevel::U));
    assert!(csr_read_only(Mhartid.number()));
    assert!(!csr_read_only(Satp.number()));
    assert_eq!(Tp.index(), 4);
}

#[test]
fn mstatus_fields() {
    let m = 0xffff_ffff_ffff_ffffu64;
    let s = MstatusMpp.write(m, PrivLevel::S);
    assert_eq!(s, m & !(3 << 11) | (1 << 11));
    assert_eq!(MstatusMpp.read(s), Ok(PrivLevel::S));
    assert_eq!(MstatusMpp.read(0), Ok(PrivLevel::U));
    assert_eq!(MstatusMpp.read(2 << 11), Err(()));
    assert!(MstatusMie.read(MstatusMie.write(0, true)));
    assert_eq!(MstatusMie.write(0xf, false), 0x7);
    let ss = user_return_sstatus(0x100);
    assert_eq!(ss, 0x20);
}

#[test]
fn clint_registers() {
    assert_eq!(Mtime.addr_of(), 0x0200_bff8);
    assert_eq!(Mtimecmp { hart_id: 2 }.addr_of(), 0x0200_4010);
    assert_eq!(timer_scratch(1, 1_000_000), [0, 0, 0, 0x0200_4008, 1_000_000]);
    assert_eq!(next_mtimecmp(10, 5), 15);
    assert_eq!(next_mtimecmp(u64::MAX, 2), 1);
}

#[test]
fn uart_logic() {
    assert_eq!(Uart::init_sequence(), vec![(1, 0), (3, 0x80), (0, 3), (1, 0), (3, 3), (2, 7), (1, 3)]);
    let u = Uart { base_addr: 0x1000_0000 };
    assert_eq!(u.register_addr(5), 0x1000_0005);
    assert!(rx_ready(0x61));
    assert!(!rx_ready(0x60));
    assert!(tx_empty(0x20));
    let mut c = Console::new();
    c.write_str("ok");
    assert_eq!(send_step(&mut c, 0), None);
    assert_eq!(send_step(&mut c, 0x20), Some(b'o'));
    assert_eq!(send_step(&mut c, 0x20), Some(b'k'));
    assert_eq!(send_step(&mut c, 0x20), None);
}

#[test]
fn syscall_from_trapframe() {
    let mut tf = Trapframe::zeroed();
    tf.a6 = 11;
    tf.a0 = 0x3000;
    tf.a1 = 2;
    assert_eq!(syscall_action(&tf), SyscallAction::Print { user_va: 0x3000, len: 2 });
    tf.a6 = 12;
    tf.a0 = 7;
    assert_eq!(syscall_action(&tf), SyscallAction::Exit { code: 7 });
    tf.a6 = 10;
    tf.a0 = 0x1_0003;
    tf.a1 = 0x5000;
    tf.a2 = 64;
    assert_eq!(syscall_action(&tf), SyscallAction::Read { file_id: 3, buf: 0x5000, len: 64 });
    tf.a6 = 99;
    assert_eq!(syscall_action(&tf), SyscallAction::Unknown { number: 99 });
}

#[test]
fn boot_register_values() {
    let b = boot_csrs(3 << 11 | 0x8, 0x8000_0100, 2);
    assert_eq!(b.mstatus, 1 << 11 | 0x8);
    assert_eq!(MstatusMpp.read(b.mstatus), Ok(PrivLevel::S));
    assert_eq!(b.mepc, 0x8000_0100);
    assert_eq!(b.satp, 0);
    assert_eq!(b.medeleg, 0xb33f);
    assert_eq!(b.mideleg, 0x222);
    assert_eq!(b.sie, 0x222);
    assert_eq!(b.pmpaddr0, 0x3f_ffff_ffff_ffff);
    assert_eq!(b.pmpcfg0, 0xf);
    assert_eq!(b.tp, 2);
}

#[test]
fn key_press_lines() {
    let mut k = Keyboard::new();
    k.update_new_press(97).unwrap();
    k.update_new_press(7).unwrap();
    let keys = read_recent_input(&mut k);
    let text = String::from_utf8(key_press_text(&keys)).unwrap();
    assert_eq!(text, "Key pressed: 97\nKey pressed: 7\n");
}
