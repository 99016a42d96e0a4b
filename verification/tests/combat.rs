use dessa::exports::combat::{cbt, cbt_local, get_ag_bytes, get_ev_bytes, AgOwned, CbtEvent};

fn sample_event() -> CbtEvent {
    CbtEvent {
        time: 0x0102030405060708,
        src_agent: 0x11,
        dst_agent: 0x22,
        value: -1,
        buff_dmg: 300,
        overstack_value: 7,
        skillid: 5492,
        src_instid: 0x0a0b,
        dst_instid: 2,
        src_master_instid: 3,
        dst_master_instid: 4,
        iff: 1,
        buff: 2,
        result: 3,
        is_activation: 4,
        is_buffremove: 5,
        is_ninety: 6,
        is_fifty: 7,
        is_moving: 8,
        is_statechange: 9,
        is_flanking: 10,
        is_shields: 11,
        is_offcycle: 12,
        pad61: 13,
        pad62: 14,
        pad63: 15,
        pad64: 16,
    }
}

fn expected_ev_bytes(ev: &CbtEvent) -> Vec<u8> {
    let mut v = Vec::new();
    v.extend_from_slice(&ev.time.to_le_bytes());
    v.extend_from_slice(&ev.src_agent.to_le_bytes());
    v.extend_from_slice(&ev.dst_agent.to_le_bytes());
    v.extend_from_slice(&ev.value.to_le_bytes());
    v.extend_from_slice(&ev.buff_dmg.to_le_bytes());
    v.extend_from_slice(&ev.overstack_value.to_le_bytes());
    v.extend_from_slice(&ev.skillid.to_le_bytes());
    v.extend_from_slice(&ev.src_instid.to_le_bytes());
    v.extend_from_slice(&ev.dst_instid.to_le_bytes());
    v.extend_from_slice(&ev.src_master_instid.to_le_bytes());
    v.extend_from_slice(&ev.dst_master_instid.to_le_bytes());
    v.extend_from_slice(&[
        ev.iff, ev.buff, ev.result, ev.is_activation, ev.is_buffremove, ev.is_ninety,
        ev.is_fifty, ev.is_moving, ev.is_statechange, ev.is_flanking, ev.is_shields,
        ev.is_offcycle, ev.pad61, ev.pad62, ev.pad63, ev.pad64,
    ]);
    v
}

fn agent(name: Option<&str>) -> AgOwned {
    AgOwned {
        name: name.map(|n| n.to_string()),
        id: 0x1234,
        prof: 6,
        elite: 55,
        self_: 1,
        team: 700,
    }
}

fn expected_ag_bytes(ag: &AgOwned) -> Vec<u8> {
    let name: &[u8] = match &ag.name {
        Some(n) => n.as_bytes(),
        None => &[],
    };
    let mut v = Vec::new();
    v.extend_from_slice(&name.len().to_le_bytes());
    v.extend_from_slice(name);
    v.extend_from_slice(&ag.id.to_le_bytes());
    v.extend_from_slice(&ag.prof.to_le_bytes());
    v.extend_from_slice(&ag.elite.to_le_bytes());
    v.extend_from_slice(&ag.self_.to_le_bytes());
    v.extend_from_slice(&ag.team.to_le_bytes());
    v
}

#[test]
fn ev_bytes_are_fields_in_order() {
    let ev = sample_event();
    let b = get_ev_bytes(&ev);
    assert_eq!(b, expected_ev_bytes(&ev));
    assert_eq!(b.len(), 48 + 2 * std::mem::size_of::<usize>());
    assert_eq!(&b[0..8], &[8, 7, 6, 5, 4, 3, 2, 1]);
    let value_at = 8 + 2 * std::mem::size_of::<usize>();
    assert_eq!(&b[value_at..value_at + 4], &[0xff, 0xff, 0xff, 0xff]);
    assert_eq!(&b[value_at + 4..value_at + 8], &[0x2c, 0x01, 0, 0]);
    assert_eq!(&b[b.len() - 16..], &[1, 2, 3, 4, 5, 6, 7, 8, 9, 10, 11, 12, 13, 14, 15, 16]);
}

#[test]
fn ag_bytes_with_name() {
    let ag = agent(Some("Ädne.1234"));
    let b = get_ag_bytes(&ag);
    assert_eq!(b, expected_ag_bytes(&ag));
    let w = std::mem::size_of::<usize>();
    assert_eq!(&b[0..w], &10usize.to_le_bytes());
    assert_eq!(&b[w..w + 10], "Ädne.1234".as_bytes());
}

#[test]
fn ag_without_name_is_encoded_as_empty_name() {
    assert_eq!(get_ag_bytes(&agent(None)), get_ag_bytes(&agent(Some(""))));
    assert_eq!(get_ag_bytes(&agent(None)).len(), 14 + 2 * std::mem::size_of::<usize>());
}

#[test]
fn full_area_message() {
    let ev = sample_event();
    let src = agent(Some("Source"));
    let dst = agent(Some("Target"));
    let msg = cbt(Some(&ev), Some(&src), Some(&dst), Some("Fireball"), 77, 1);
    let mut expected = vec![2u8, 15u8];
    expected.extend(expected_ev_bytes(&ev));
    expected.extend(expected_ag_bytes(&src));
    expected.extend(expected_ag_bytes(&dst));
    expected.extend_from_slice(&"Fireball".len().to_le_bytes());
    expected.extend_from_slice(b"Fireball");
    expected.extend_from_slice(&77u64.to_le_bytes());
    expected.extend_from_slice(&1u64.to_le_bytes());
    assert_eq!(msg, expected);
}

#[test]
fn empty_message_is_frame_only() {
    let msg = cbt(None, None, None, None, 0x0102, 0x0304);
    assert_eq!(msg, vec![2, 0, 2, 1, 0, 0, 0, 0, 0, 0, 4, 3, 0, 0, 0, 0, 0, 0]);
}

#[test]
fn flags_follow_the_parts_present() {
    let src = agent(None);
    let msg = cbt(None, Some(&src), None, Some("x"), 0, 0);
    assert_eq!(msg[1], 2 | 8);
    let ev = sample_event();
    let msg = cbt(Some(&ev), None, Some(&src), None, 0, 0);
    assert_eq!(msg[1], 1 | 4);
}

#[test]
fn local_message_differs_in_first_byte_only() {
    let ev = sample_event();
    let src = agent(Some("Me"));
    let area = cbt(Some(&ev), Some(&src), None, Some("Heal"), 9, 3);
    let local = cbt_local(Some(&ev), Some(&src), None, Some("Heal"), 9, 3);
    assert_eq!(area[0], 2);
    assert_eq!(local[0], 3);
    assert_eq!(&area[1..], &local[1..]);
}

#[test]
fn different_inputs_give_different_messages() {
    let ev = sample_event();
    let mut other = sample_event();
    other.pad64 = 17;
    let a = agent(Some("Ann"));
    let b = agent(Some("Anna"));
    let base = cbt(Some(&ev), Some(&a), None, Some("Heal"), 1, 2);
    assert_ne!(base, cbt(Some(&other), Some(&a), None, Some("Heal"), 1, 2));
    assert_ne!(base, cbt(Some(&ev), Some(&b), None, Some("Heal"), 1, 2));
    assert_ne!(base, cbt(Some(&ev), None, Some(&a), Some("Heal"), 1, 2));
    assert_ne!(base, cbt(Some(&ev), Some(&a), None, Some("Heals"), 1, 2));
    assert_ne!(base, cbt(Some(&ev), Some(&a), None, Some("Heal"), 1, 3));
    assert_ne!(base, cbt(Some(&ev), Some(&a), None, None, 1, 2));
    // The name of an agent moves bytes between the name and what follows,
    // and the length in front keeps them apart.
    let x = cbt(None, Some(&agent(Some("ab"))), None, Some("c"), 0, 0);
    let y = cbt(None, Some(&agent(Some("a"))), None, Some("bc"), 0, 0);
    assert_ne!(x, y);
}
