use thos::sched::{apply_cpu_state, idle_tid, Sched, State};
use thos::xhci::{
    first_port, kind, modified, read_layout, setup, EventRing, Ring, Stage, Trb, Xhci, RING_TRBS,
    TRB_EV_CMD_COMPLETE, TRB_EV_TRANSFER, TRB_LINK,
};

fn running(s: &Sched, cpu: usize) -> u64 {
    s.current(cpu).unwrap().id
}

#[test]
fn threads_take_turns() {
    let mut s = Sched::new(1);
    assert!(!s.is_started());
    assert!(s.on_tick(0).is_none());
    s.init_bsp(0x1000, 0x8000);
    assert!(s.is_started());
    let a = s.spawn(0x1000, 0x9000);
    let b = s.spawn_user(40, 0x2000, 0xA000);
    assert_eq!(running(&s, 0), 0);
    let mut order = Vec::new();
    for _ in 0..6 {
        s.on_tick(0);
        s.finish_switch(0);
        order.push(running(&s, 0));
    }
    assert_eq!(order, vec![a, b, 0, a, b, 0]);
    assert_eq!(s.ctx_switches(), 6);
    s.on_tick(0);
    s.finish_switch(0);
    s.on_tick(0);
    s.finish_switch(0);
    assert_eq!(s.current_proc(0), Some(40));
}

#[test]
fn sleepers_do_not_run_until_woken() {
    let mut s = Sched::new(1);
    s.init_bsp(0x1000, 0x8000);
    let a = s.spawn(0x1000, 0x9000);
    let (prev, _) = s.block_current(0).unwrap();
    s.finish_switch(0);
    assert_eq!(running(&s, 0), a);
    s.on_tick(0);
    s.finish_switch(0);
    assert_ne!(running(&s, 0), 0);
    assert!(s.claim(prev));
    s.unblock(prev);
    let mut seen = false;
    for _ in 0..3 {
        s.on_tick(0);
        s.finish_switch(0);
        seen = seen || running(&s, 0) == 0;
    }
    assert!(seen);
}

#[test]
fn ended_threads_never_run_again() {
    let mut s = Sched::new(1);
    s.init_bsp(0x1000, 0x8000);
    let a = s.spawn(0x1000, 0x9000);
    s.on_tick(0);
    s.finish_switch(0);
    assert_eq!(running(&s, 0), a);
    s.exit(0);
    s.finish_switch(0);
    for _ in 0..4 {
        assert_ne!(running(&s, 0), a);
        assert!(s.current(0).unwrap().state == State::Running);
        s.on_tick(0);
        s.finish_switch(0);
    }
    s.reap(&[]);
}

#[test]
fn idle_threads_fill_in() {
    let mut s = Sched::new(2);
    s.init_bsp(0x1000, 0x8000);
    s.cpu_enter(1, 0x1000);
    assert_eq!(idle_tid(1), 0xFFFF_0001);
    assert_eq!(running(&s, 1), idle_tid(1));
    s.block_current(0);
    s.finish_switch(0);
    assert_eq!(running(&s, 0), idle_tid(0));
}

#[test]
fn page_tables_change_only_when_they_differ() {
    let mut s = Sched::new(1);
    s.init_bsp(0x1000, 0x8000);
    s.spawn_user_pe(9, 0x5000, 0x9000, 0x7FF0_0000_1000);
    s.on_tick(0);
    s.finish_switch(0);
    let t = s.current(0).unwrap();
    let c = apply_cpu_state(&t, 0x1000, 0, 0);
    assert_eq!((c.cr3, c.kstack_top), (Some(0x5000), t.kstack_top));
    assert_eq!(c.gs, Some(0x7FF0_0000_1000));
    assert_eq!(apply_cpu_state(&t, 0x5000, 0, 0).cr3, None);
}

fn trb(w3: u32) -> Trb {
    Trb { w0: 1, w1: 2, w2: 3, w3 }
}

#[test]
fn rings_wrap_with_a_link() {
    let mut r = Ring::new(0x4000);
    let mut wrapped = 0;
    for i in 0..RING_TRBS {
        let (at, w) = r.push(trb(9 << 10));
        if i < RING_TRBS - 1 {
            assert_eq!(at, i);
            assert_eq!(r.at(at).w3 & 1, 1);
        }
        if w {
            wrapped += 1;
        }
    }
    assert_eq!(wrapped, 1);
    assert_eq!(kind(&r.at(RING_TRBS - 1)), TRB_LINK);
    // The second round carries the other cycle bit.
    assert_eq!(r.at(0).w3 & 1, 0);
}

#[test]
fn events_are_taken_by_their_cycle() {
    let mut e = EventRing { phys: 0x6000, idx: 0, cycle: 1 };
    assert!(e.poll(&trb(0)).is_none());
    assert!(e.poll(&trb(1)).is_some());
    assert_eq!(e.idx, 1);
}

#[test]
fn requests_bring_the_keyboard_up() {
    let mut x = Xhci::new(2, 3 << 10, Ring::new(0x1000), 0x2000, 0x3000, 0x4000, 0x5000);
    let done = Trb { w0: 0, w1: 0, w2: 1 << 24, w3: (7 << 24) | (TRB_EV_CMD_COMPLETE << 10) };
    let sent = Trb { w0: 0, w1: 0, w2: 1 << 24, w3: TRB_EV_TRANSFER << 10 };
    let a = x.init(None).ok().unwrap();
    assert_eq!((a.doorbell, a.wait), ((0, 0), TRB_EV_CMD_COMPLETE));
    let a = x.init(Some(done)).ok().unwrap();
    assert!(a.enter_device && a.input.is_some());
    assert_eq!(x.slot, 7);
    let a = x.init(Some(done)).ok().unwrap();
    assert_eq!((a.doorbell, a.wait), ((7, 1), TRB_EV_TRANSFER));
    for e in [sent, done, sent] {
        assert!(x.init(Some(e)).is_ok());
    }
    assert!(x.stage == Stage::SetIdle);
    let a = x.init(Some(sent)).ok().unwrap();
    assert_eq!((a.doorbell, a.wait), ((7, 3), 0));
    assert!(x.stage == Stage::Up);
}

#[test]
fn unanswered_requests_fail() {
    let fresh = || Xhci::new(2, 3 << 10, Ring::new(0x1000), 0x2000, 0x3000, 0x4000, 0x5000);
    let mut x = fresh();
    assert!(x.init(None).is_ok());
    assert_eq!(x.init(None).err(), Some("Enable Slot timeout"));
    let mut x = fresh();
    assert!(x.init(None).is_ok());
    let refused = Trb { w0: 0, w1: 0, w2: 9 << 24, w3: 1 << 24 };
    assert_eq!(x.init(Some(refused)).err(), Some("Enable Slot failed"));
}

#[test]
fn registers_are_laid_out() {
    let l = read_layout(0x1000, 0x20, 0x0800_0040, 0x3003, 0x2007);
    assert_eq!((l.op, l.db, l.ir0), (0x1020, 0x4000, 0x3020));
    assert_eq!((l.max_slots, l.max_ports), (0x40, 8));
    assert_eq!(first_port(&[0, 0, 1]).ok(), Some(3));
    assert!(first_port(&[0, 2]).is_err());
    assert_eq!(modified(0b1111, 0b0011, 0b10000), 0b11100);
    assert_eq!(setup(0x21, 0x0B, 1, 2, 3), vec![0x21, 0x0B, 1, 0, 2, 0, 3, 0]);
}

#[test]
fn idle_threads_stay_at_home() {
    let mut s = Sched::new(2);
    s.init_bsp(0x1000, 0x8000);
    s.cpu_enter(1, 0x1000);
    assert_eq!(running(&s, 1), idle_tid(1));
    // Thread 0 sleeps, the first processor idles, and goes on idling.
    let (boot, _) = s.block_current(0).unwrap();
    s.finish_switch(0);
    assert_eq!(running(&s, 0), idle_tid(0));
    assert!(s.on_tick(0).is_none());
    assert!(s.on_tick(1).is_none());
    s.unblock(boot);
    assert!(s.thread(boot).state == State::Ready);
    s.on_tick(1);
    s.finish_switch(1);
    assert_eq!(running(&s, 1), 0);
    // The queue is empty again: no idle thread came into it.
    assert!(s.on_tick(0).is_none());
    assert_eq!(running(&s, 0), idle_tid(0));
}
