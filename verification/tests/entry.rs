use scematica::entry::{entry_gate, EntryRefusal, EntryState};

const OURS: [u8; 32] = [1u8; 32];

fn open_state() -> EntryState {
    EntryState {
        pool_quote: OURS,
        quote: OURS,
        listed: None,
        sell_mode: false,
        dump_mode: false,
        max_buys: 5,
        buys: 4,
        max_open: 2,
        open: 1,
    }
}

#[test]
fn a_clear_pool_passes_the_gates() {
    assert_eq!(entry_gate(&open_state()), None);
    let listed = EntryState { listed: Some(true), ..open_state() };
    assert_eq!(entry_gate(&listed), None);
    let unlimited = EntryState { max_buys: 0, buys: 99, max_open: 0, open: 99, ..open_state() };
    assert_eq!(entry_gate(&unlimited), None);
}

#[test]
fn the_quote_mint_is_checked_first() {
    let s = EntryState { pool_quote: [2u8; 32], listed: Some(false), sell_mode: true, buys: 9, open: 9, ..open_state() };
    let r = entry_gate(&s);
    assert_eq!(r, Some(EntryRefusal::WrongQuoteMint));
    assert_eq!(r.unwrap().record(), ("ignored", "quote_mint", "wrong_quote_mint"));
}

#[test]
fn each_gate_refuses_with_its_record() {
    let r = entry_gate(&EntryState { listed: Some(false), sell_mode: true, ..open_state() }).unwrap();
    assert_eq!(r.record(), ("rejected", "snipe_list", "not_listed"));
    let r = entry_gate(&EntryState { sell_mode: true, buys: 5, ..open_state() }).unwrap();
    assert_eq!(r.record(), ("ignored", "operator_mode", "sell_mode"));
    let r = entry_gate(&EntryState { sell_mode: true, dump_mode: true, ..open_state() }).unwrap();
    assert_eq!(r.record(), ("ignored", "operator_mode", "dump_mode"));
    let r = entry_gate(&EntryState { buys: 5, open: 2, ..open_state() }).unwrap();
    assert_eq!(r.record(), ("ignored", "buy_limit", "max_buys_reached"));
    let r = entry_gate(&EntryState { open: 2, ..open_state() }).unwrap();
    assert_eq!(r.record(), ("ignored", "exposure", "max_concurrent_positions"));
    assert_eq!(EntryRefusal::HeatCooldown.record(), ("ignored", "risk", "session_heat_cooldown"));
}
