//! Encoding of combat events into the byte messages that subscribers receive.
//!
//! A message is laid out as
//! `[indicator, flags] ++ event? ++ source agent? ++ target agent? ++ skill name? ++ id ++ revision`,
//! where `flags` has bit 0 set when the event is present, bit 1 for the source
//! agent, bit 2 for the target agent and bit 3 for the skill name, and every
//! integer is written little-endian.
use vstd::prelude::*;
use crate::bytes::{
    le_bytes, usize_width, i32_bits, push_le, push_all, usize_bytes, lemma_le_bytes_len, le_value,
    byte_range, lemma_le_roundtrip, lemma_u64_fits, lemma_usize_fits, le_fields, fields_view,
    push_fields, fields_width, fields_fit, lemma_le_fields_len, lemma_le_fields_injective,
    lemma_concat_split, lemma_concat_split_right, lemma_concat4_assoc, i32_from_le,
    lemma_i32_bytes_read_back, lemma_le_fields_at, lemma_le_bytes_injective, lemma_i32_bits_injective, lemma_i32_bits_fit,
};
use vstd::utf8::encode_utf8_decode_utf8;
use vstd::utf8::encode_utf8;

verus! {

/// A combat event, as the combat log hands it over.
#[derive(Clone, Copy, Debug)]
pub struct CbtEvent {
    pub time: u64,
    pub src_agent: usize,
    pub dst_agent: usize,
    pub value: i32,
    pub buff_dmg: i32,
    pub overstack_value: u32,
    pub skillid: u32,
    pub src_instid: u16,
    pub dst_instid: u16,
    pub src_master_instid: u16,
    pub dst_master_instid: u16,
    pub iff: u8,
    pub buff: u8,
    pub result: u8,
    pub is_activation: u8,
    pub is_buffremove: u8,
    pub is_ninety: u8,
    pub is_fifty: u8,
    pub is_moving: u8,
    pub is_statechange: u8,
    pub is_flanking: u8,
    pub is_shields: u8,
    pub is_offcycle: u8,
    pub pad61: u8,
    pub pad62: u8,
    pub pad63: u8,
    pub pad64: u8,
}

/// An agent (a player, NPC or gadget) with its name already read out.
#[derive(Debug)]
pub struct AgOwned {
    pub name: Option<String>,
    pub id: usize,
    pub prof: u32,
    pub elite: u32,
    pub self_: u32,
    pub team: u16,
}

/// Indicator byte of messages about combat in the area.
pub const AREA_INDICATOR: u8 = 2;

/// Indicator byte of messages about combat of the local player.
pub const LOCAL_INDICATOR: u8 = 3;

/// The integer fields of an event with their widths, in declaration order.
pub open spec fn ev_int_fields(ev: CbtEvent) -> Seq<(nat, nat)> {
    seq![
        (ev.time as nat, 8nat),
        (ev.src_agent as nat, usize_width()),
        (ev.dst_agent as nat, usize_width()),
        (i32_bits(ev.value), 4nat),
        (i32_bits(ev.buff_dmg), 4nat),
        (ev.overstack_value as nat, 4nat),
        (ev.skillid as nat, 4nat),
        (ev.src_instid as nat, 2nat),
        (ev.dst_instid as nat, 2nat),
        (ev.src_master_instid as nat, 2nat),
        (ev.dst_master_instid as nat, 2nat),
    ]
}

/// The one-byte fields of an event, in declaration order.
pub open spec fn ev_flag_bytes(ev: CbtEvent) -> Seq<u8> {
    seq![
        ev.iff,
        ev.buff,
        ev.result,
        ev.is_activation,
        ev.is_buffremove,
        ev.is_ninety,
        ev.is_fifty,
        ev.is_moving,
        ev.is_statechange,
        ev.is_flanking,
        ev.is_shields,
        ev.is_offcycle,
        ev.pad61,
        ev.pad62,
        ev.pad63,
        ev.pad64,
    ]
}

/// The bytes of an event: every field in declaration order, little-endian.
pub open spec fn ev_bytes(ev: CbtEvent) -> Seq<u8> {
    le_fields(ev_int_fields(ev)) + ev_flag_bytes(ev)
}

/// The UTF-8 bytes of an agent's name; no name gives no bytes.
pub open spec fn name_bytes(name: Option<String>) -> Seq<u8> {
    match name {
        Some(s) => encode_utf8(s@),
        None => Seq::empty(),
    }
}

/// A byte string preceded by its length as a `usize`.
pub open spec fn prefixed(b: Seq<u8>) -> Seq<u8> {
    le_bytes(b.len(), usize_width()) + b
}

/// The integer fields of an agent after its name, with their widths.
pub open spec fn ag_int_fields(ag: AgOwned) -> Seq<(nat, nat)> {
    seq![
        (ag.id as nat, usize_width()),
        (ag.prof as nat, 4nat),
        (ag.elite as nat, 4nat),
        (ag.self_ as nat, 4nat),
        (ag.team as nat, 2nat),
    ]
}

/// The bytes of an agent: its name with its length, then id, profession,
/// elite specialisation, self flag and team.
pub open spec fn ag_bytes(ag: AgOwned) -> Seq<u8> {
    prefixed(name_bytes(ag.name)) + le_fields(ag_int_fields(ag))
}

/// The flags byte: which of the four optional parts a message carries.
pub open spec fn presence_flags(ev: bool, src: bool, dst: bool, skill: bool) -> u8 {
    ((if ev { 1u8 } else { 0u8 }) + (if src { 2u8 } else { 0u8 }) + (if dst { 4u8 } else { 0u8 })
        + (if skill { 8u8 } else { 0u8 })) as u8
}

/// The bytes of an event that may be absent.
pub open spec fn opt_ev_bytes(ev: Option<CbtEvent>) -> Seq<u8> {
    match ev {
        Some(e) => ev_bytes(e),
        None => Seq::empty(),
    }
}

/// The bytes of an agent that may be absent.
pub open spec fn opt_ag_bytes(ag: Option<AgOwned>) -> Seq<u8> {
    match ag {
        Some(a) => ag_bytes(a),
        None => Seq::empty(),
    }
}

/// The bytes of a skill name that may be absent.
pub open spec fn opt_skill_bytes(skillname: Option<Seq<char>>) -> Seq<u8> {
    match skillname {
        Some(s) => prefixed(encode_utf8(s)),
        None => Seq::empty(),
    }
}

/// The optional parts of a message, in order.
pub open spec fn payload(
    ev: Option<CbtEvent>,
    src: Option<AgOwned>,
    dst: Option<AgOwned>,
    skillname: Option<Seq<char>>,
) -> Seq<u8> {
    opt_ev_bytes(ev) + opt_ag_bytes(src) + opt_ag_bytes(dst) + opt_skill_bytes(skillname)
}

/// The whole message for one combat callback.
pub open spec fn message(
    indicator: u8,
    ev: Option<CbtEvent>,
    src: Option<AgOwned>,
    dst: Option<AgOwned>,
    skillname: Option<Seq<char>>,
    id: u64,
    revision: u64,
) -> Seq<u8> {
    seq![indicator, presence_flags(ev is Some, src is Some, dst is Some, skillname is Some)]
        + payload(ev, src, dst, skillname) + le_bytes(id as nat, 8) + le_bytes(revision as nat, 8)
}

/// The view of an optional string slice.
pub open spec fn opt_str_view(s: Option<&str>) -> Option<Seq<char>> {
    match s {
        Some(t) => Some(t@),
        None => None,
    }
}

/// Encodes a combat event about the area: the message begins with indicator 2.
pub fn cbt(
    ev: Option<&CbtEvent>,
    src: Option<&AgOwned>,
    dst: Option<&AgOwned>,
    skillname: Option<&str>,
    id: u64,
    revision: u64,
) -> (msg: Vec<u8>)
    ensures
        msg@ == message(
            AREA_INDICATOR,
            opt_ev(ev),
            opt_ag(src),
            opt_ag(dst),
            opt_str_view(skillname),
            id,
            revision,
        ),
{
    spawn_cbt(ev, src, dst, skillname, id, revision, AREA_INDICATOR)
}

/// Encodes a combat event of the local player: the message begins with indicator 3.
pub fn cbt_local(
    ev: Option<&CbtEvent>,
    src: Option<&AgOwned>,
    dst: Option<&AgOwned>,
    skillname: Option<&str>,
    id: u64,
    revision: u64,
) -> (msg: Vec<u8>)
    ensures
        msg@ == message(
            LOCAL_INDICATOR,
            opt_ev(ev),
            opt_ag(src),
            opt_ag(dst),
            opt_str_view(skillname),
            id,
            revision,
        ),
{
    spawn_cbt(ev, src, dst, skillname, id, revision, LOCAL_INDICATOR)
}

/// The event behind an optional reference.
pub open spec fn opt_ev(ev: Option<&CbtEvent>) -> Option<CbtEvent> {
    match ev {
        Some(e) => Some(*e),
        None => None,
    }
}

/// The agent behind an optional reference.
pub open spec fn opt_ag(ag: Option<&AgOwned>) -> Option<AgOwned> {
    match ag {
        Some(a) => Some(*a),
        None => None,
    }
}

fn copy_ag(ag: &AgOwned) -> (r: AgOwned)
    ensures
        r == *ag,
{
    let name = match &ag.name {
        Some(n) => Some(n.clone()),
        None => None,
    };
    AgOwned { name, id: ag.id, prof: ag.prof, elite: ag.elite, self_: ag.self_, team: ag.team }
}

fn copy_opt_ag(ag: Option<&AgOwned>) -> (r: Option<AgOwned>)
    ensures
        r == opt_ag(ag),
{
    match ag {
        Some(a) => Some(copy_ag(a)),
        None => None,
    }
}

/// Takes owned copies of the borrowed parts and encodes them under `indicator`.
fn spawn_cbt(
    ev: Option<&CbtEvent>,
    src: Option<&AgOwned>,
    dst: Option<&AgOwned>,
    skillname: Option<&str>,
    id: u64,
    revision: u64,
    indicator: u8,
) -> (msg: Vec<u8>)
    ensures
        msg@ == message(
            indicator,
            opt_ev(ev),
            opt_ag(src),
            opt_ag(dst),
            opt_str_view(skillname),
            id,
            revision,
        ),
{
    let ev_owned = match ev {
        Some(e) => Some(*e),
        None => None,
    };
    cbt_with_type(ev_owned, copy_opt_ag(src), copy_opt_ag(dst), skillname, id, revision, indicator)
}

/// Builds the message: the indicator, then what `add_bytes` adds.
fn cbt_with_type(
    ev: Option<CbtEvent>,
    src: Option<AgOwned>,
    dst: Option<AgOwned>,
    skillname: Option<&str>,
    id: u64,
    revision: u64,
    indicator: u8,
) -> (msg: Vec<u8>)
    ensures
        msg@ == message(indicator, ev, src, dst, opt_str_view(skillname), id, revision),
{
    let mut message_buf: Vec<u8> = Vec::new();
    message_buf.push(indicator);
    let ghost first = message_buf@;
    add_bytes(&mut message_buf, ev, src, dst, skillname, id, revision);
    proof {
        let ghost sk = opt_str_view(skillname);
        assert(first.take(1) =~= seq![indicator]);
        assert(first.skip(1) =~= Seq::<u8>::empty());
        assert(message_buf@ =~= message(indicator, ev, src, dst, sk, id, revision));
    }
    message_buf
}

/// Appends the optional parts to `message`, puts the flags byte at index 1,
/// then appends the id and the revision.
fn add_bytes(
    message: &mut Vec<u8>,
    ev: Option<CbtEvent>,
    src: Option<AgOwned>,
    dst: Option<AgOwned>,
    skillname: Option<&str>,
    id: u64,
    revision: u64,
)
    requires
        old(message)@.len() >= 1,
    ensures
        final(message)@ == old(message)@.take(1) + seq![
            presence_flags(ev is Some, src is Some, dst is Some, skillname is Some),
        ] + old(message)@.skip(1) + payload(ev, src, dst, opt_str_view(skillname)) + le_bytes(
            id as nat,
            8,
        ) + le_bytes(revision as nat, 8),
{
    let ghost start = message@;
    let messages = append_parts(message, &ev, &src, &dst, skillname);
    let ghost appended = message@;
    message.insert(1, messages);
    assert(message@ =~= start.take(1) + seq![messages] + start.skip(1) + payload(
        ev,
        src,
        dst,
        opt_str_view(skillname),
    )) by {
        assert(appended =~= start + payload(ev, src, dst, opt_str_view(skillname)));
    }
    push_le(message, id, 8);
    push_le(message, revision, 8);
}

/// The bytes of a skill name preceded by its length.
fn framed_name(name: &str) -> (b: Vec<u8>)
    ensures
        b@ == prefixed(encode_utf8(name@)),
{
    let bytes = name.as_bytes();
    let mut framed: Vec<u8> = Vec::new();
    push_le(&mut framed, bytes.len() as u64, usize_bytes());
    push_all(&mut framed, bytes);
    assert(framed@ =~= prefixed(encode_utf8(name@)));
    framed
}

/// Appends the parts that are present and returns the flags byte for them.
fn append_parts(
    message: &mut Vec<u8>,
    ev: &Option<CbtEvent>,
    src: &Option<AgOwned>,
    dst: &Option<AgOwned>,
    skillname: Option<&str>,
) -> (flags: u8)
    ensures
        final(message)@ == old(message)@ + payload(*ev, *src, *dst, opt_str_view(skillname)),
        flags == presence_flags(ev is Some, src is Some, dst is Some, skillname is Some),
{
    let ghost start = message@;
    let mut messages: u8 = 0;
    if let Some(ev) = ev {
        messages = messages + 1;
        let mut bytes = get_ev_bytes(ev);
        message.append(&mut bytes);
    }
    let ghost p_ev = opt_ev_bytes(*ev);
    assert(message@ =~= start + p_ev);
    if let Some(ag) = src {
        messages = messages + 2;
        let mut bytes = get_ag_bytes(ag);
        message.append(&mut bytes);
    }
    let ghost p_src = opt_ag_bytes(*src);
    assert(message@ =~= start + p_ev + p_src);
    if let Some(ag) = dst {
        messages = messages + 4;
        let mut bytes = get_ag_bytes(ag);
        message.append(&mut bytes);
    }
    let ghost p_dst = opt_ag_bytes(*dst);
    assert(message@ =~= start + p_ev + p_src + p_dst);
    if let Some(name) = skillname {
        messages = messages + 8;
        let mut framed = framed_name(name);
        message.append(&mut framed);
    }
    let ghost p_sk = opt_skill_bytes(opt_str_view(skillname));
    assert(message@ =~= start + p_ev + p_src + p_dst + p_sk);
    assert(payload(*ev, *src, *dst, opt_str_view(skillname)) =~= p_ev + p_src + p_dst + p_sk);
    messages
}

/// The bytes of an event.
pub fn get_ev_bytes(ev: &CbtEvent) -> (b: Vec<u8>)
    ensures
        b@ == ev_bytes(*ev),
{
    let w = usize_bytes();
    let fields: Vec<(u64, usize)> = vec![
        (ev.time, 8),
        (ev.src_agent as u64, w),
        (ev.dst_agent as u64, w),
        (i32_as_u32(ev.value) as u64, 4),
        (i32_as_u32(ev.buff_dmg) as u64, 4),
        (ev.overstack_value as u64, 4),
        (ev.skillid as u64, 4),
        (ev.src_instid as u64, 2),
        (ev.dst_instid as u64, 2),
        (ev.src_master_instid as u64, 2),
        (ev.dst_master_instid as u64, 2),
    ];
    assert(fields_view(fields@) =~= ev_int_fields(*ev));
    let mut out: Vec<u8> = Vec::new();
    push_fields(&mut out, fields.as_slice());
    out.push(ev.iff);
    out.push(ev.buff);
    out.push(ev.result);
    out.push(ev.is_activation);
    out.push(ev.is_buffremove);
    out.push(ev.is_ninety);
    out.push(ev.is_fifty);
    out.push(ev.is_moving);
    out.push(ev.is_statechange);
    out.push(ev.is_flanking);
    out.push(ev.is_shields);
    out.push(ev.is_offcycle);
    out.push(ev.pad61);
    out.push(ev.pad62);
    out.push(ev.pad63);
    out.push(ev.pad64);
    assert(out@ =~= ev_bytes(*ev));
    out
}

/// The bytes of an agent.
pub fn get_ag_bytes(ag: &AgOwned) -> (b: Vec<u8>)
    ensures
        b@ == ag_bytes(*ag),
{
    let w = usize_bytes();
    let mut out: Vec<u8> = Vec::new();
    match &ag.name {
        Some(name) => {
            let bytes = name.as_str().as_bytes();
            push_le(&mut out, bytes.len() as u64, w);
            push_all(&mut out, bytes);
        },
        None => {
            push_le(&mut out, 0, w);
        },
    }
    assert(out@ =~= prefixed(name_bytes(ag.name)));
    let fields: Vec<(u64, usize)> = vec![
        (ag.id as u64, w),
        (ag.prof as u64, 4),
        (ag.elite as u64, 4),
        (ag.self_ as u64, 4),
        (ag.team as u64, 2),
    ];
    assert(fields_view(fields@) =~= ag_int_fields(*ag));
    push_fields(&mut out, fields.as_slice());
    out
}

/// The two's complement bit pattern of an `i32`, as `to_le_bytes` writes it.
fn i32_as_u32(v: i32) -> (r: u32)
    ensures
        r as nat == i32_bits(v),
{
    if v < 0 {
        ((v as i64) + 0x1_0000_0000i64) as u32
    } else {
        v as u32
    }
}

/// Every event takes the same number of bytes: 48 plus two `usize` agent ids.
pub proof fn lemma_ev_bytes_len(ev: CbtEvent)
    ensures
        ev_bytes(ev).len() == 48 + 2 * usize_width(),
{
    lemma_le_fields_len(ev_int_fields(ev));
    reveal_with_fuel(fields_width, 12);
}

/// An agent takes the bytes of its name plus a fixed 14 bytes and two `usize`s.
pub proof fn lemma_ag_bytes_len(ag: AgOwned)
    ensures
        ag_bytes(ag).len() == name_bytes(ag.name).len() + 14 + 2 * usize_width(),
{
    lemma_le_bytes_len(name_bytes(ag.name).len(), usize_width());
    lemma_le_fields_len(ag_int_fields(ag));
    reveal_with_fuel(fields_width, 6);
}

/// An agent without a name is encoded exactly as an agent whose name is empty.
pub proof fn lemma_absent_name_is_empty_name(ag: AgOwned, empty: String)
    requires
        ag.name is None,
        empty@.len() == 0,
    ensures
        ag_bytes(ag) == ag_bytes(AgOwned { name: Some(empty), ..ag }),
{
    assert(encode_utf8(empty@) =~= Seq::<u8>::empty()) by {
        assert(empty@ =~= Seq::<char>::empty());
    }
}

/// The frame of every message: the indicator first, the flags byte second,
/// the id and then the revision in the last sixteen bytes, and in between
/// exactly the parts that are present.
pub proof fn lemma_message_layout(
    indicator: u8,
    ev: Option<CbtEvent>,
    src: Option<AgOwned>,
    dst: Option<AgOwned>,
    skillname: Option<Seq<char>>,
    id: u64,
    revision: u64,
)
    ensures
        ({
            let m = message(indicator, ev, src, dst, skillname, id, revision);
            let p = payload(ev, src, dst, skillname);
            &&& m.len() == 2 + p.len() + 16
            &&& m[0] == indicator
            &&& m[1] == presence_flags(ev is Some, src is Some, dst is Some, skillname is Some)
            &&& m.subrange(2, 2 + p.len() as int) == p
            &&& m.subrange(m.len() - 16, m.len() - 8) == le_bytes(id as nat, 8)
            &&& m.subrange(m.len() - 8, m.len() as int) == le_bytes(revision as nat, 8)
        }),
{
    let m = message(indicator, ev, src, dst, skillname, id, revision);
    let p = payload(ev, src, dst, skillname);
    lemma_le_bytes_len(id as nat, 8);
    lemma_le_bytes_len(revision as nat, 8);
    assert(m.subrange(2, 2 + p.len() as int) =~= p);
    assert(m.subrange(m.len() - 16, m.len() - 8) =~= le_bytes(id as nat, 8));
    assert(m.subrange(m.len() - 8, m.len() as int) =~= le_bytes(revision as nat, 8));
}

/// The flags byte tells which parts are present: bit 0 the event, bit 1 the
/// source agent, bit 2 the target agent, bit 3 the skill name.
pub proof fn lemma_flags_decode(ev: bool, src: bool, dst: bool, skill: bool)
    ensures
        ({
            let f = presence_flags(ev, src, dst, skill);
            &&& f < 16
            &&& (f % 2 == 1 <==> ev)
            &&& ((f / 2) % 2 == 1 <==> src)
            &&& ((f / 4) % 2 == 1 <==> dst)
            &&& ((f / 8) % 2 == 1 <==> skill)
        }),
{
}

/// A local message and an area message for the same event differ in their
/// first byte only.
pub proof fn lemma_local_and_area_differ_in_indicator(
    ev: Option<CbtEvent>,
    src: Option<AgOwned>,
    dst: Option<AgOwned>,
    skillname: Option<Seq<char>>,
    id: u64,
    revision: u64,
)
    ensures
        message(LOCAL_INDICATOR, ev, src, dst, skillname, id, revision) == message(
            AREA_INDICATOR,
            ev,
            src,
            dst,
            skillname,
            id,
            revision,
        ).update(0, LOCAL_INDICATOR),
{
    assert(message(LOCAL_INDICATOR, ev, src, dst, skillname, id, revision) =~= message(
        AREA_INDICATOR,
        ev,
        src,
        dst,
        skillname,
        id,
        revision,
    ).update(0, LOCAL_INDICATOR));
}

/// The id and the revision read back from the last sixteen bytes of a message.
pub proof fn lemma_message_trailer_readback(
    indicator: u8,
    ev: Option<CbtEvent>,
    src: Option<AgOwned>,
    dst: Option<AgOwned>,
    skillname: Option<Seq<char>>,
    id: u64,
    revision: u64,
)
    ensures
        ({
            let m = message(indicator, ev, src, dst, skillname, id, revision);
            &&& le_value(m.subrange(m.len() - 16, m.len() - 8)) == id
            &&& le_value(m.subrange(m.len() - 8, m.len() as int)) == revision
        }),
{
    lemma_message_layout(indicator, ev, src, dst, skillname, id, revision);
    lemma_u64_fits(id);
    lemma_u64_fits(revision);
    lemma_le_roundtrip(id as nat, 8);
    lemma_le_roundtrip(revision as nat, 8);
}

/// An agent's name is read back from its encoding: the first `usize` gives
/// the length of the name, and that many bytes after it are the name.
pub proof fn lemma_ag_name_readback(ag: AgOwned)
    requires
        name_bytes(ag.name).len() < byte_range(usize_width()),
    ensures
        ({
            let b = ag_bytes(ag);
            let n = name_bytes(ag.name);
            &&& le_value(b.subrange(0, usize_width() as int)) == n.len()
            &&& b.subrange(usize_width() as int, (usize_width() + n.len()) as int) == n
        }),
{
    let b = ag_bytes(ag);
    let n = name_bytes(ag.name);
    lemma_le_bytes_len(n.len(), usize_width());
    lemma_ag_bytes_len(ag);
    assert(b.subrange(0, usize_width() as int) =~= le_bytes(n.len(), usize_width()));
    assert(b.subrange(usize_width() as int, (usize_width() + n.len()) as int) =~= n);
    lemma_le_roundtrip(n.len(), usize_width());
}

proof fn lemma_ev_int_fields_fit(ev: CbtEvent)
    ensures
        fields_fit(ev_int_fields(ev)),
{
    reveal_with_fuel(byte_range, 9);
    lemma_u64_fits(ev.time);
    lemma_usize_fits(ev.src_agent);
    lemma_usize_fits(ev.dst_agent);
    lemma_i32_bits_fit(ev.value);
    lemma_i32_bits_fit(ev.buff_dmg);
    let f = ev_int_fields(ev);
    assert forall|i: int| 0 <= i < f.len() implies #[trigger] f[i].0 < byte_range(f[i].1) by {
        if i == 0 {
        } else if i == 1 {
        } else if i == 2 {
        } else if i == 3 {
        } else if i == 4 {
        } else if i == 5 {
        } else if i == 6 {
        } else if i == 7 {
        } else if i == 8 {
        } else if i == 9 {
        } else {
        }
    }
}

/// Two events with the same bytes are the same event.
pub proof fn lemma_ev_bytes_injective(e1: CbtEvent, e2: CbtEvent)
    requires
        ev_bytes(e1) == ev_bytes(e2),
    ensures
        e1 == e2,
{
    let f1 = ev_int_fields(e1);
    let f2 = ev_int_fields(e2);
    lemma_le_fields_len(f1);
    lemma_le_fields_len(f2);
    reveal_with_fuel(fields_width, 12);
    lemma_concat_split(le_fields(f1), ev_flag_bytes(e1), le_fields(f2), ev_flag_bytes(e2));
    lemma_ev_int_fields_fit(e1);
    lemma_ev_int_fields_fit(e2);
    assert forall|i: int| 0 <= i < f1.len() implies #[trigger] f1[i].1 == f2[i].1 by {
        if i == 0 {
        } else if i == 1 {
        } else if i == 2 {
        } else if i == 3 {
        } else if i == 4 {
        } else if i == 5 {
        } else if i == 6 {
        } else if i == 7 {
        } else if i == 8 {
        } else if i == 9 {
        } else {
        }
    }
    lemma_le_fields_injective(f1, f2);
    assert(f1[3] == f2[3]);
    assert(f1[4] == f2[4]);
    lemma_i32_bits_injective(e1.value, e2.value);
    lemma_i32_bits_injective(e1.buff_dmg, e2.buff_dmg);
    assert(f1[0] == f2[0] && f1[1] == f2[1] && f1[2] == f2[2] && f1[5] == f2[5] && f1[6] == f2[6]);
    assert(f1[7] == f2[7] && f1[8] == f2[8] && f1[9] == f2[9] && f1[10] == f2[10]);
    let b1 = ev_flag_bytes(e1);
    let b2 = ev_flag_bytes(e2);
    assert(b1[0] == b2[0] && b1[1] == b2[1] && b1[2] == b2[2] && b1[3] == b2[3]);
    assert(b1[4] == b2[4] && b1[5] == b2[5] && b1[6] == b2[6] && b1[7] == b2[7]);
    assert(b1[8] == b2[8] && b1[9] == b2[9] && b1[10] == b2[10] && b1[11] == b2[11]);
    assert(b1[12] == b2[12] && b1[13] == b2[13] && b1[14] == b2[14] && b1[15] == b2[15]);
}

/// The characters of an agent's name; no name counts as the empty name.
pub open spec fn name_chars(name: Option<String>) -> Seq<char> {
    match name {
        Some(s) => s@,
        None => Seq::empty(),
    }
}

/// Two agents that the encoding cannot tell apart: the same name text and
/// the same numbers.
pub open spec fn same_agent(a: AgOwned, b: AgOwned) -> bool {
    &&& name_chars(a.name) == name_chars(b.name)
    &&& a.id == b.id
    &&& a.prof == b.prof
    &&& a.elite == b.elite
    &&& a.self_ == b.self_
    &&& a.team == b.team
}

/// Both absent, or both present and alike.
pub open spec fn same_opt_agent(a: Option<AgOwned>, b: Option<AgOwned>) -> bool {
    match (a, b) {
        (Some(x), Some(y)) => same_agent(x, y),
        (None, None) => true,
        _ => false,
    }
}

/// A byte string is short enough for its length to be written in a `usize`.
pub open spec fn fits_usize(b: Seq<u8>) -> bool {
    b.len() < byte_range(usize_width())
}

/// Every name in a message is short enough for its length to be written.
pub open spec fn names_fit(
    src: Option<AgOwned>,
    dst: Option<AgOwned>,
    skillname: Option<Seq<char>>,
) -> bool {
    &&& (src matches Some(a) ==> fits_usize(name_bytes(a.name)))
    &&& (dst matches Some(a) ==> fits_usize(name_bytes(a.name)))
    &&& (skillname matches Some(s) ==> fits_usize(encode_utf8(s)))
}

proof fn lemma_name_bytes_chars(name: Option<String>)
    ensures
        name_bytes(name) == encode_utf8(name_chars(name)),
{
    if name is None {
        assert(encode_utf8(Seq::<char>::empty()) =~= Seq::<u8>::empty());
    }
}

/// A length-prefixed byte string followed by anything is read back: the
/// length tells where the string ends.
pub proof fn lemma_prefixed_split(b1: Seq<u8>, r1: Seq<u8>, b2: Seq<u8>, r2: Seq<u8>)
    requires
        prefixed(b1) + r1 == prefixed(b2) + r2,
        fits_usize(b1),
        fits_usize(b2),
    ensures
        b1 == b2,
        r1 == r2,
{
    let l1 = le_bytes(b1.len(), usize_width());
    let l2 = le_bytes(b2.len(), usize_width());
    lemma_le_bytes_len(b1.len(), usize_width());
    lemma_le_bytes_len(b2.len(), usize_width());
    assert(prefixed(b1) + r1 =~= l1 + (b1 + r1));
    assert(prefixed(b2) + r2 =~= l2 + (b2 + r2));
    lemma_concat_split(l1, b1 + r1, l2, b2 + r2);
    lemma_le_bytes_injective(b1.len(), b2.len(), usize_width());
    lemma_concat_split(b1, r1, b2, r2);
}

proof fn lemma_ag_int_fields_fit(ag: AgOwned)
    ensures
        fields_fit(ag_int_fields(ag)),
{
    reveal_with_fuel(byte_range, 9);
    lemma_usize_fits(ag.id);
    let f = ag_int_fields(ag);
    assert forall|i: int| 0 <= i < f.len() implies #[trigger] f[i].0 < byte_range(f[i].1) by {
        if i == 0 {
        } else if i == 1 {
        } else if i == 2 {
        } else if i == 3 {
        } else {
        }
    }
}

/// An agent followed by anything is read back: agents with the same bytes
/// have the same name text and the same numbers.
pub proof fn lemma_ag_bytes_split(a1: AgOwned, r1: Seq<u8>, a2: AgOwned, r2: Seq<u8>)
    requires
        ag_bytes(a1) + r1 == ag_bytes(a2) + r2,
        fits_usize(name_bytes(a1.name)),
        fits_usize(name_bytes(a2.name)),
    ensures
        same_agent(a1, a2),
        r1 == r2,
{
    let n1 = name_bytes(a1.name);
    let n2 = name_bytes(a2.name);
    let f1 = ag_int_fields(a1);
    let f2 = ag_int_fields(a2);
    assert(ag_bytes(a1) + r1 =~= prefixed(n1) + (le_fields(f1) + r1));
    assert(ag_bytes(a2) + r2 =~= prefixed(n2) + (le_fields(f2) + r2));
    lemma_prefixed_split(n1, le_fields(f1) + r1, n2, le_fields(f2) + r2);
    lemma_le_fields_len(f1);
    lemma_le_fields_len(f2);
    reveal_with_fuel(fields_width, 6);
    lemma_concat_split(le_fields(f1), r1, le_fields(f2), r2);
    lemma_ag_int_fields_fit(a1);
    lemma_ag_int_fields_fit(a2);
    assert forall|i: int| 0 <= i < f1.len() implies #[trigger] f1[i].1 == f2[i].1 by {
        if i == 0 {
        } else if i == 1 {
        } else if i == 2 {
        } else if i == 3 {
        } else {
        }
    }
    lemma_le_fields_injective(f1, f2);
    assert(f1[0] == f2[0] && f1[1] == f2[1] && f1[2] == f2[2] && f1[3] == f2[3] && f1[4] == f2[4]);
    lemma_name_bytes_chars(a1.name);
    lemma_name_bytes_chars(a2.name);
    encode_utf8_decode_utf8(name_chars(a1.name));
    encode_utf8_decode_utf8(name_chars(a2.name));
}

/// The frame of equal messages: the same indicator, parts present, id and
/// revision, and the same parts in between.
proof fn lemma_message_frame_split(
    ind1: u8,
    ev1: Option<CbtEvent>,
    src1: Option<AgOwned>,
    dst1: Option<AgOwned>,
    sk1: Option<Seq<char>>,
    id1: u64,
    rev1: u64,
    ind2: u8,
    ev2: Option<CbtEvent>,
    src2: Option<AgOwned>,
    dst2: Option<AgOwned>,
    sk2: Option<Seq<char>>,
    id2: u64,
    rev2: u64,
)
    requires
        message(ind1, ev1, src1, dst1, sk1, id1, rev1) == message(ind2, ev2, src2, dst2, sk2, id2, rev2),
    ensures
        ind1 == ind2,
        ev1 is Some == ev2 is Some,
        src1 is Some == src2 is Some,
        dst1 is Some == dst2 is Some,
        sk1 is Some == sk2 is Some,
        id1 == id2,
        rev1 == rev2,
        payload(ev1, src1, dst1, sk1) == payload(ev2, src2, dst2, sk2),
{
    let head1 = seq![ind1, presence_flags(ev1 is Some, src1 is Some, dst1 is Some, sk1 is Some)];
    let head2 = seq![ind2, presence_flags(ev2 is Some, src2 is Some, dst2 is Some, sk2 is Some)];
    let p1 = payload(ev1, src1, dst1, sk1);
    let p2 = payload(ev2, src2, dst2, sk2);
    lemma_le_bytes_len(id1 as nat, 8);
    lemma_le_bytes_len(id2 as nat, 8);
    lemma_le_bytes_len(rev1 as nat, 8);
    lemma_le_bytes_len(rev2 as nat, 8);
    lemma_concat_split_right(
        head1 + p1 + le_bytes(id1 as nat, 8),
        le_bytes(rev1 as nat, 8),
        head2 + p2 + le_bytes(id2 as nat, 8),
        le_bytes(rev2 as nat, 8),
    );
    lemma_concat_split_right(head1 + p1, le_bytes(id1 as nat, 8), head2 + p2, le_bytes(id2 as nat, 8));
    lemma_u64_fits(id1);
    lemma_u64_fits(id2);
    lemma_u64_fits(rev1);
    lemma_u64_fits(rev2);
    lemma_le_bytes_injective(id1 as nat, id2 as nat, 8);
    lemma_le_bytes_injective(rev1 as nat, rev2 as nat, 8);
    lemma_concat_split(head1, p1, head2, p2);
    assert(head1[0] == head2[0]);
    assert(head1[1] == head2[1]);
    lemma_flags_decode(ev1 is Some, src1 is Some, dst1 is Some, sk1 is Some);
    lemma_flags_decode(ev2 is Some, src2 is Some, dst2 is Some, sk2 is Some);
}

/// An optional agent followed by anything is read back, given whether it is present.
proof fn lemma_opt_ag_split(a1: Option<AgOwned>, r1: Seq<u8>, a2: Option<AgOwned>, r2: Seq<u8>)
    requires
        opt_ag_bytes(a1) + r1 == opt_ag_bytes(a2) + r2,
        a1 is Some == a2 is Some,
        a1 matches Some(x) ==> fits_usize(name_bytes(x.name)),
        a2 matches Some(x) ==> fits_usize(name_bytes(x.name)),
    ensures
        same_opt_agent(a1, a2),
        r1 == r2,
{
    if let (Some(x1), Some(x2)) = (a1, a2) {
        lemma_ag_bytes_split(x1, r1, x2, r2);
    } else {
        assert(opt_ag_bytes(a1) + r1 =~= r1);
        assert(opt_ag_bytes(a2) + r2 =~= r2);
    }
}

/// An optional event followed by anything is read back, given whether it is present.
proof fn lemma_opt_ev_split(e1: Option<CbtEvent>, r1: Seq<u8>, e2: Option<CbtEvent>, r2: Seq<u8>)
    requires
        opt_ev_bytes(e1) + r1 == opt_ev_bytes(e2) + r2,
        e1 is Some == e2 is Some,
    ensures
        e1 == e2,
        r1 == r2,
{
    if let (Some(x1), Some(x2)) = (e1, e2) {
        lemma_ev_bytes_len(x1);
        lemma_ev_bytes_len(x2);
        lemma_concat_split(ev_bytes(x1), r1, ev_bytes(x2), r2);
        lemma_ev_bytes_injective(x1, x2);
    } else {
        assert(opt_ev_bytes(e1) + r1 =~= r1);
        assert(opt_ev_bytes(e2) + r2 =~= r2);
    }
}

/// Equal optional skill names have equal bytes only when they are equal.
proof fn lemma_opt_skill_injective(k1: Option<Seq<char>>, k2: Option<Seq<char>>)
    requires
        opt_skill_bytes(k1) == opt_skill_bytes(k2),
        k1 is Some == k2 is Some,
        k1 matches Some(s) ==> fits_usize(encode_utf8(s)),
        k2 matches Some(s) ==> fits_usize(encode_utf8(s)),
    ensures
        k1 == k2,
{
    if let (Some(t1), Some(t2)) = (k1, k2) {
        assert(prefixed(encode_utf8(t1)) + Seq::<u8>::empty() =~= prefixed(encode_utf8(t1)));
        assert(prefixed(encode_utf8(t2)) + Seq::<u8>::empty() =~= prefixed(encode_utf8(t2)));
        lemma_prefixed_split(encode_utf8(t1), Seq::empty(), encode_utf8(t2), Seq::empty());
        encode_utf8_decode_utf8(t1);
        encode_utf8_decode_utf8(t2);
    }
}

/// The parts of equal messages, given which are present, are the same.
proof fn lemma_payload_split(
    ev1: Option<CbtEvent>,
    src1: Option<AgOwned>,
    dst1: Option<AgOwned>,
    sk1: Option<Seq<char>>,
    ev2: Option<CbtEvent>,
    src2: Option<AgOwned>,
    dst2: Option<AgOwned>,
    sk2: Option<Seq<char>>,
)
    requires
        payload(ev1, src1, dst1, sk1) == payload(ev2, src2, dst2, sk2),
        ev1 is Some == ev2 is Some,
        src1 is Some == src2 is Some,
        dst1 is Some == dst2 is Some,
        sk1 is Some == sk2 is Some,
        names_fit(src1, dst1, sk1),
        names_fit(src2, dst2, sk2),
    ensures
        ev1 == ev2,
        same_opt_agent(src1, src2),
        same_opt_agent(dst1, dst2),
        sk1 == sk2,
{
    let e1 = opt_ev_bytes(ev1);
    let e2 = opt_ev_bytes(ev2);
    let s1 = opt_ag_bytes(src1);
    let s2 = opt_ag_bytes(src2);
    let d1 = opt_ag_bytes(dst1);
    let d2 = opt_ag_bytes(dst2);
    let k1 = opt_skill_bytes(sk1);
    let k2 = opt_skill_bytes(sk2);
    lemma_concat4_assoc(e1, s1, d1, k1);
    lemma_concat4_assoc(e2, s2, d2, k2);
    lemma_opt_ev_split(ev1, s1 + (d1 + k1), ev2, s2 + (d2 + k2));
    lemma_opt_ag_split(src1, d1 + k1, src2, d2 + k2);
    lemma_opt_ag_split(dst1, k1, dst2, k2);
    lemma_opt_skill_injective(sk1, sk2);
}

/// A message tells everything it was made from: equal messages (whose names
/// are short enough for their lengths to be written) come from the same
/// indicator, event, id and revision, the same skill name, and agents with
/// the same name text and numbers. An absent agent name and an empty one are
/// the one thing the encoding does not tell apart.
pub proof fn lemma_message_determines_inputs(
    ind1: u8,
    ev1: Option<CbtEvent>,
    src1: Option<AgOwned>,
    dst1: Option<AgOwned>,
    sk1: Option<Seq<char>>,
    id1: u64,
    rev1: u64,
    ind2: u8,
    ev2: Option<CbtEvent>,
    src2: Option<AgOwned>,
    dst2: Option<AgOwned>,
    sk2: Option<Seq<char>>,
    id2: u64,
    rev2: u64,
)
    requires
        message(ind1, ev1, src1, dst1, sk1, id1, rev1) == message(ind2, ev2, src2, dst2, sk2, id2, rev2),
        names_fit(src1, dst1, sk1),
        names_fit(src2, dst2, sk2),
    ensures
        ind1 == ind2,
        ev1 == ev2,
        same_opt_agent(src1, src2),
        same_opt_agent(dst1, dst2),
        sk1 == sk2,
        id1 == id2,
        rev1 == rev2,
{
    lemma_message_frame_split(ind1, ev1, src1, dst1, sk1, id1, rev1, ind2, ev2, src2, dst2, sk2, id2, rev2);
    lemma_payload_split(ev1, src1, dst1, sk1, ev2, src2, dst2, sk2);
}

/// The value and the buff damage of an event are written in two's complement:
/// the four bytes after the time and the two agent ids read back, as an
/// `i32`, as the event's value, and the four after them as its buff damage.
pub proof fn lemma_ev_signed_fields_read_back(ev: CbtEvent)
    ensures
        ({
            let b = ev_bytes(ev);
            let o: int = (8 + 2 * usize_width()) as int;
            &&& i32_from_le(b.subrange(o, o + 4)) == ev.value
            &&& i32_from_le(b.subrange(o + 4, o + 8)) == ev.buff_dmg
        }),
{
    let f = ev_int_fields(ev);
    let o: int = (8 + 2 * usize_width()) as int;
    lemma_le_fields_len(f);
    reveal_with_fuel(fields_width, 12);
    assert(f.take(3) =~= seq![f[0], f[1], f[2]]);
    assert(f.take(4) =~= seq![f[0], f[1], f[2], f[3]]);
    assert(fields_width(seq![f[0], f[1], f[2]]) == o) by {
        assert(seq![f[0], f[1], f[2]].drop_first() =~= seq![f[1], f[2]]);
        assert(seq![f[1], f[2]].drop_first() =~= seq![f[2]]);
        assert(seq![f[2]].drop_first() =~= Seq::<(nat, nat)>::empty());
    }
    assert(fields_width(seq![f[0], f[1], f[2], f[3]]) == o + 4) by {
        assert(seq![f[0], f[1], f[2], f[3]].drop_first() =~= seq![f[1], f[2], f[3]]);
        assert(seq![f[1], f[2], f[3]].drop_first() =~= seq![f[2], f[3]]);
        assert(seq![f[2], f[3]].drop_first() =~= seq![f[3]]);
        assert(seq![f[3]].drop_first() =~= Seq::<(nat, nat)>::empty());
    }
    lemma_le_fields_at(f, 3);
    lemma_le_fields_at(f, 4);
    let b = ev_bytes(ev);
    assert(b.subrange(o, o + 4) =~= le_fields(f).subrange(o, o + 4));
    assert(b.subrange(o + 4, o + 8) =~= le_fields(f).subrange(o + 4, o + 8));
    lemma_i32_bytes_read_back(ev.value);
    lemma_i32_bytes_read_back(ev.buff_dmg);
}

} // verus!
