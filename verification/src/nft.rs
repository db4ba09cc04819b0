//! The firewall rule that sends marked DNS requests elsewhere.

use crate::attrs::{
    attr_from, attrs_bytes, be_word_under, behind, big_number, bytes_under, bytes_under_read_back,
    with_attr, with_nested, Fits,
};
use crate::bytes::{
    half_at, half_bytes, half_reads_back, padded, put_word, word_bytes, word_reads_back, Machine,
    Order,
};
use crate::error::Error;
use crate::netlink::same_bytes;
use crate::rtnl::{big_bytes, Request, CREATE, DUMP};
use netlink_bindings::nftables;
use netlink_bindings::traits::{NetlinkRequest, Protocol, Pusher};
use vstd::prelude::*;
use vstd::string::StrSliceExecFns;
use vstd::utf8::encode_utf8;

verus! {

/// The register that expressions use.
pub const REGISTER: u32 = 1;

/// The test for equality.
pub const EQUAL: u32 = 0;

/// The bytes of a name, and a zero behind them.
pub open spec fn name_bytes(s: Seq<char>) -> Seq<u8> {
    encode_utf8(s).push(0)
}

/// A word, the highest byte first.
pub open spec fn be(x: u32) -> Seq<u8> {
    word_bytes(Order::Big, x)
}

/// What an expression of a rule holds: its name and its data.
pub open spec fn expr_bytes(order: Order, name: Seq<char>, data: Seq<u8>) -> Seq<u8> {
    with_nested(order, with_attr(order, Seq::empty(), 1, name_bytes(name)), 2, data)
}

/// The bytes of an expression that loads bytes of a packet into a register.
#[verifier::opaque]
pub open spec fn payload_expr(order: Order, dreg: u32, base: u32, offset: u32, len: u32) -> Seq<
    u8,
> {
    expr_bytes(
        order,
        "payload"@,
        attrs_bytes(
            order,
            seq![(1u16, be(dreg)), (2u16, be(base)), (3u16, be(offset)), (4u16, be(len))],
        ),
    )
}

/// The bytes of an expression that tests a register against a value.
#[verifier::opaque]
pub open spec fn test_expr(order: Order, sreg: u32, op: u32, value: Seq<u8>) -> Seq<u8> {
    expr_bytes(
        order,
        "cmp"@,
        with_nested(
            order,
            attrs_bytes(order, seq![(1u16, be(sreg)), (2u16, be(op))]),
            3,
            with_attr(order, Seq::empty(), 1, value),
        ),
    )
}

/// The bytes of an expression that loads a property of a packet into a register.
#[verifier::opaque]
pub open spec fn meta_expr(order: Order, dreg: u32, key: u32) -> Seq<u8> {
    expr_bytes(order, "meta"@, attrs_bytes(order, seq![(1u16, be(dreg)), (2u16, be(key))]))
}

/// An expression of a rule.
pub enum Expr {
    /// Loads bytes of a packet into the first register.
    Payload { base: u32, offset: u32, len: u32 },
    /// Goes on only where the first register holds these bytes.
    Equals { value: Seq<u8> },
    /// Loads a property of a packet into the first register.
    Meta { key: u32 },
    /// Hands the packet to a target.
    Target { name: Seq<char>, rev: u32, info: Seq<u8> },
}

impl Expr {
    /// The bytes of an expression.
    #[verifier::opaque]
    pub open spec fn bytes(self, order: Order) -> Seq<u8> {
        match self {
            Expr::Payload { base, offset, len } => payload_expr(order, REGISTER, base, offset, len),
            Expr::Equals { value } => test_expr(order, REGISTER, EQUAL, value),
            Expr::Meta { key } => meta_expr(order, REGISTER, key),
            Expr::Target { name, rev, info } => expr_bytes(
                order,
                "target"@,
                attrs_bytes(order, seq![(1u16, name_bytes(name)), (2u16, be(rev)), (3u16, info)]),
            ),
        }
    }
}

/// The bytes of expressions, one after the other.
#[verifier::opaque]
pub open spec fn exprs_bytes(order: Order, es: Seq<Expr>) -> Seq<u8>
    decreases es.len(),
{
    if es.len() == 0 {
        Seq::empty()
    } else {
        with_nested(order, exprs_bytes(order, es.drop_last()), 1, es.last().bytes(order))
    }
}

/// `nested_data_payload` of `nftables::PushExprAttrs`, in an element of a list of
/// expressions, with a register, a base, an offset and a length.
#[verifier::external_body]
fn push_payload(m: &Machine, buf: &mut Vec<u8>, dreg: u32, base: u32, offset: u32, len: u32)
    ensures
        final(buf)@ == with_nested(
            m.layout(),
            old(buf)@,
            1,
            payload_expr(m.layout(), dreg, base, offset, len),
        ),
{
    nftables::PushExprListAttrs::new(buf)
        .nested_elem()
        .nested_data_payload()
        .push_dreg(dreg)
        .push_base(base)
        .push_offset(offset)
        .push_len(len);
}

/// `nested_data_cmp` of `nftables::PushExprAttrs`, in an element of a list of
/// expressions, with a register, a test and a value.
#[verifier::external_body]
fn push_test(m: &Machine, buf: &mut Vec<u8>, sreg: u32, op: u32, value: &Vec<u8>)
    requires
        value@.len() <= 65531,
    ensures
        final(buf)@ == with_nested(
            m.layout(),
            old(buf)@,
            1,
            test_expr(m.layout(), sreg, op, value@),
        ),
{
    nftables::PushExprListAttrs::new(buf)
        .nested_elem()
        .nested_data_cmp()
        .push_sreg(sreg)
        .push_op(op)
        .nested_data()
        .push_value(value);
}

/// `nested_data_meta` of `nftables::PushExprAttrs`, in an element of a list of
/// expressions, with a register and a key.
#[verifier::external_body]
fn push_meta(m: &Machine, buf: &mut Vec<u8>, dreg: u32, key: u32)
    ensures
        final(buf)@ == with_nested(
            m.layout(),
            old(buf)@,
            1,
            meta_expr(m.layout(), dreg, key),
        ),
{
    nftables::PushExprListAttrs::new(buf)
        .nested_elem()
        .nested_data_meta()
        .push_dreg(dreg)
        .push_key(key);
}

/// `nested_data_target` of `nftables::PushExprAttrs`, in an element of a list of
/// expressions, with the name, the revision and the data of the target.
#[verifier::external_body]
fn push_target(m: &Machine, buf: &mut Vec<u8>, name: &str, rev: u32, info: &Vec<u8>)
    requires
        encode_utf8(name@).len() <= 65530,
        info@.len() <= 65531,
    ensures
        final(buf)@ == with_nested(
            m.layout(),
            old(buf)@,
            1,
            (Expr::Target { name: name@, rev, info: info@ }).bytes(m.layout()),
        ),
{
    nftables::PushExprListAttrs::new(buf)
        .nested_elem()
        .nested_data_target()
        .push_name_bytes(name.as_bytes())
        .push_rev(rev)
        .push_info(info);
}

/// `nftables::NatRange2::as_slice`: flags, twice an address, and no ports.
#[verifier::external_body]
fn nat_range(m: &Machine, flags: u32, addr: &Vec<u8>) -> (r: Vec<u8>)
    requires
        addr@.len() == 16,
    ensures
        r@ == word_bytes(m.layout(), flags) + addr@ + addr@ + seq![0u8, 0, 0, 0, 0, 0, 0, 0],
{
    let addr: [u8; 16] = addr.as_slice().try_into().unwrap();
    let range = nftables::NatRange2 { flags, min_addr: addr, max_addr: addr, ..Default::default() };
    range.as_slice().to_vec()
}

/// `nftables::PushRuleAttrs::push_table_bytes`: the name and a zero behind it.
#[verifier::external_body]
fn rule_table(m: &Machine, buf: &mut Vec<u8>, name: &str)
    requires
        encode_utf8(name@).len() <= 65530,
    ensures
        final(buf)@ == with_attr(m.layout(), old(buf)@, 1, name_bytes(name@)),
{
    nftables::PushRuleAttrs::new(buf).push_table_bytes(name.as_bytes());
}

/// `nftables::PushRuleAttrs::push_chain_bytes`: the name and a zero behind it.
#[verifier::external_body]
fn rule_chain(m: &Machine, buf: &mut Vec<u8>, name: &str)
    requires
        encode_utf8(name@).len() <= 65530,
    ensures
        final(buf)@ == with_attr(m.layout(), old(buf)@, 2, name_bytes(name@)),
{
    nftables::PushRuleAttrs::new(buf).push_chain_bytes(name.as_bytes());
}

/// `nftables::PushRuleAttrs::push_handle`.
#[verifier::external_body]
fn rule_handle(m: &Machine, buf: &mut Vec<u8>, handle: u64)
    ensures
        final(buf)@ == with_attr(m.layout(), old(buf)@, 3, big_bytes(handle as nat, 8)),
{
    nftables::PushRuleAttrs::new(buf).push_handle(handle);
}

/// `nftables::PushRuleAttrs::nested_expressions`, with expressions that are
/// there as bytes.
#[verifier::external_body]
fn rule_expressions(m: &Machine, buf: &mut Vec<u8>, exprs: &Vec<u8>)
    ensures
        final(buf)@ == with_nested(m.layout(), old(buf)@, 4, exprs@),
{
    nftables::PushRuleAttrs::new(buf).nested_expressions().as_vec_mut().extend_from_slice(exprs);
}

/// `nftables::PushRuleAttrs::push_userdata`.
#[verifier::external_body]
fn rule_userdata(m: &Machine, buf: &mut Vec<u8>, data: &Vec<u8>)
    requires
        data@.len() <= 65531,
    ensures
        final(buf)@ == with_attr(m.layout(), old(buf)@, 7, data@),
{
    nftables::PushRuleAttrs::new(buf).push_userdata(data);
}

/// A message with its header: length, type, flags, number, and no sender.
pub open spec fn message(
    order: Order,
    kind: u16,
    flags: u16,
    seq: u32,
    payload: Seq<u8>,
) -> Seq<u8> {
    word_bytes(order, (16 + padded(payload).len()) as u32) + half_bytes(order, kind) + half_bytes(
        order,
        flags,
    ) + word_bytes(order, seq) + word_bytes(order, 0) + padded(payload)
}

/// The header of a firewall message.
pub open spec fn nf_header(family: u8, resource: u16) -> Seq<u8> {
    seq![family, 0u8] + half_bytes(Order::Big, resource)
}

/// A batch with one message in it, which asks for an answer, as all three do.
pub open spec fn batch(
    order: Order,
    seq: u32,
    resource: u16,
    genid: u32,
    kind: u16,
    flags: u16,
    payload: Seq<u8>,
) -> Seq<u8> {
    message(order, 16, 5, seq, with_attr(order, nf_header(0, resource), 1, be(genid))) + message(
        order,
        kind,
        flags,
        seq.wrapping_add(1),
        payload,
    ) + message(order, 17, 5, seq.wrapping_add(2), nf_header(0, resource))
}

/// `nftables::Request::op_batch_begin_do` in a `nftables::Chained`: the message
/// that begins a batch. The chain adds the flags for a request and an answer.
#[verifier::external_body]
fn begin_message(m: &Machine, seq: u32, resource: u16, genid: u32) -> (r: Vec<u8>)
    ensures
        r@ == message(
            m.layout(),
            16,
            5,
            seq,
            with_attr(m.layout(), nf_header(0, resource), 1, be(genid)),
        ),
{
    let mut h = nftables::Nfgenmsg::new();
    h.set_res_id(resource);
    let mut c = nftables::Chained::new(seq);
    c.request().op_batch_begin_do(&h).encode().push_genid(genid);
    c.finalize().buf().clone()
}

/// `nftables::Request::op_newrule_do` in a `nftables::Chained`, with attributes
/// that are there as bytes: the message that makes a rule. The chain adds the
/// flags for a request and an answer.
#[verifier::external_body]
fn newrule_message(m: &Machine, seq: u32, flags: u16, family: u8, attrs: &Vec<u8>) -> (r: Vec<u8>)
    ensures
        r@ == message(m.layout(), 2566, flags | 5, seq, nf_header(family, 0) + attrs@),
{
    let h = nftables::Nfgenmsg { nfgen_family: family, ..Default::default() };
    let mut c = nftables::Chained::new(seq);
    let mut rule = c.request().set_flags(flags).op_newrule_do(&h);
    rule.encode().as_vec_mut().extend_from_slice(attrs);
    drop(rule);
    c.finalize().buf().clone()
}

/// `nftables::Request::op_delrule_do` in a `nftables::Chained`, with attributes
/// that are there as bytes: the message that takes away a rule. The chain adds
/// the flags for a request and an answer.
#[verifier::external_body]
fn delrule_message(m: &Machine, seq: u32, flags: u16, family: u8, attrs: &Vec<u8>) -> (r: Vec<u8>)
    ensures
        r@ == message(m.layout(), 2568, flags | 5, seq, nf_header(family, 0) + attrs@),
{
    let h = nftables::Nfgenmsg { nfgen_family: family, ..Default::default() };
    let mut c = nftables::Chained::new(seq);
    let mut rule = c.request().set_flags(flags).op_delrule_do(&h);
    rule.encode().as_vec_mut().extend_from_slice(attrs);
    drop(rule);
    c.finalize().buf().clone()
}

/// `nftables::Request::op_batch_end_do` in a `nftables::Chained`: the message
/// that ends a batch. The chain adds the flags for a request and an answer.
#[verifier::external_body]
fn end_message(m: &Machine, seq: u32, resource: u16) -> (r: Vec<u8>)
    ensures
        r@ == message(m.layout(), 17, 5, seq, nf_header(0, resource)),
{
    let mut h = nftables::Nfgenmsg::new();
    h.set_res_id(resource);
    let mut c = nftables::Chained::new(seq);
    c.request().op_batch_end_do(&h);
    c.finalize().buf().clone()
}

/// A batch in which the message of a rule stands.
fn in_batch(m: &Machine, seq: u32, genid: u32, rule: Vec<u8>) -> (r: Vec<u8>)
    ensures
        r@ == message(
            m.layout(),
            16,
            5,
            seq,
            with_attr(m.layout(), nf_header(0, RESOURCE), 1, be(genid)),
        ) + rule@ + message(m.layout(), 17, 5, seq.wrapping_add(2), nf_header(0, RESOURCE)),
{
    let mut r = begin_message(m, seq, RESOURCE, genid);
    let mut rule = rule;
    let mut end = end_message(m, seq.wrapping_add(2), RESOURCE);
    r.append(&mut rule);
    r.append(&mut end);
    r
}

/// `nftables::Request::op_getgen_do`: a request for the generation of the rules.
#[verifier::external_body]
fn getgen() -> (r: Request)
    ensures
        r.kind == 2576,
        r.flags == 0,
        r.payload@ == nf_header(0, 0),
{
    let r = nftables::Request::new().op_getgen_do(&nftables::Nfgenmsg::new());
    let kind = match r.protocol() {
        Protocol::Raw { request_type, .. } => request_type,
        Protocol::Generic(_) => 0,
    };
    Request { kind, flags: r.flags(), payload: r.payload().to_vec() }
}

/// `nftables::Request::op_getrule_dump`: a request for all rules, without
/// attributes.
#[verifier::external_body]
fn getrule_dump(family: u8) -> (r: Request)
    ensures
        r.kind == 2567,
        r.flags == DUMP,
        r.payload@ == nf_header(family, 0),
{
    let header = nftables::Nfgenmsg { nfgen_family: family, ..Default::default() };
    let r = nftables::Request::new().op_getrule_dump(&header);
    let kind = match r.protocol() {
        Protocol::Raw { request_type, .. } => request_type,
        Protocol::Generic(_) => 0,
    };
    Request { kind, flags: r.flags(), payload: r.payload().to_vec() }
}

/// `OpGetgenDo::decode_reply` of `nftables`, and the getter of the number: the
/// first that can be read, or none.
#[verifier::external_body]
fn gen_reply(m: &Machine, b: &Vec<u8>) -> (r: Option<u32>)
    ensures
        r == be_word_under(m.layout(), behind(b@, 4), 1),
{
    nftables::OpGetgenDo::decode_reply(b).1.get_id().ok()
}

/// The handle of a rule in a reply.
pub open spec fn handle_under(order: Order, b: Seq<u8>) -> Option<u64> {
    match attr_from(order, b, 0, 3, Fits::AtLeast(8)) {
        None => None,
        Some(a) => Some(big_number(b.subrange(a.start, a.start + 8)) as u64),
    }
}

/// `OpGetruleDump::decode_reply` of `nftables`, and the getters of the data of
/// the owner and of the handle: of each the first that can be read, or none.
#[verifier::external_body]
fn rule_reply(m: &Machine, b: &Vec<u8>) -> (r: (Option<Vec<u8>>, Option<u64>))
    ensures
        match r.0 {
            Some(d) => bytes_under(m.layout(), behind(b@, 4), 7) == Some(d@),
            None => bytes_under(m.layout(), behind(b@, 4), 7) is None,
        },
        r.1 == handle_under(m.layout(), behind(b@, 4)),
{
    let (_, a) = nftables::OpGetruleDump::decode_reply(b);
    (a.get_userdata().ok().map(|d| d.to_vec()), a.get_handle().ok())
}

/// A name of few characters has few bytes.
proof fn name_is_short(s: Seq<char>)
    ensures
        encode_utf8(s).len() <= 4 * s.len(),
    decreases s.len(),
{
    if s.len() > 0 {
        name_is_short(s.drop_first());
    }
}

/// An address in the first four of sixteen bytes.
pub open spec fn wide_addr(addr: u32) -> Seq<u8> {
    be(addr) + seq![0u8, 0, 0, 0, 0, 0, 0, 0, 0, 0, 0, 0]
}

/// What is told to the target: to put this address in place of the destination.
pub open spec fn nat_info(order: Order, addr: u32) -> Seq<u8> {
    word_bytes(order, 1) + wide_addr(addr) + wide_addr(addr) + seq![0u8, 0, 0, 0, 0, 0, 0, 0]
}

/// The expressions of the rule: the protocol of the packet is UDP, it carries the
/// mark, it goes to the port, and then its destination becomes the address.
pub open spec fn nat_exprs(order: Order, mark: u32, addr: u32, port: u16) -> Seq<Expr> {
    seq![
        Expr::Payload { base: 1, offset: 9, len: 1 },
        Expr::Equals { value: seq![17u8] },
        Expr::Meta { key: 3 },
        Expr::Equals { value: word_bytes(order, mark) },
        Expr::Payload { base: 2, offset: 2, len: 2 },
        Expr::Equals { value: half_bytes(Order::Big, port) },
        Expr::Target { name: "DNAT"@, rev: 2, info: nat_info(order, addr) },
    ]
}

/// A packet: its mark, its network header and its transport header.
pub struct Packet {
    pub mark: u32,
    pub network: Seq<u8>,
    pub transport: Seq<u8>,
}

/// What an expression loads into the register.
pub open spec fn loaded(order: Order, e: Expr, p: Packet) -> Seq<u8> {
    match e {
        Expr::Payload { base, offset, len } => {
            let header = if base == 1 {
                p.network
            } else {
                p.transport
            };
            header.subrange(offset as int, offset + len)
        },
        _ => word_bytes(order, p.mark),
    }
}

/// Whether a packet passes all tests of expressions, the register holding some
/// bytes before.
pub open spec fn passes(order: Order, es: Seq<Expr>, register: Seq<u8>, p: Packet) -> bool
    decreases es.len(),
{
    if es.len() == 0 {
        true
    } else {
        match es[0] {
            Expr::Equals { value } => register == value && passes(order, es.skip(1), register, p),
            Expr::Target { .. } => true,
            _ => passes(order, es.skip(1), loaded(order, es[0], p), p),
        }
    }
}

/// The rule picks exactly the UDP packets with the mark that go to the port.
pub proof fn rule_picks(order: Order, mark: u32, addr: u32, port: u16, p: Packet, register: Seq<u8>)
    requires
        p.network.len() >= 20,
        p.transport.len() >= 4,
    ensures
        passes(order, nat_exprs(order, mark, addr, port), register, p) <==> {
            &&& p.network[9] == 17
            &&& p.mark == mark
            &&& half_at(Order::Big, p.transport, 2) == port
        },
{
    let es = nat_exprs(order, mark, addr, port);
    let e1 = es.skip(1);
    let e2 = e1.skip(1);
    let e3 = e2.skip(1);
    let e4 = e3.skip(1);
    let e5 = e4.skip(1);
    let e6 = e5.skip(1);
    assert(e1[0] == es[1] && e2[0] == es[2] && e3[0] == es[3] && e4[0] == es[4] && e5[0] == es[5]
        && e6[0] == es[6]);
    let proto = p.network.subrange(9, 10);
    let dport = p.transport.subrange(2, 4);
    assert(loaded(order, es[0], p) == proto);
    assert(loaded(order, es[2], p) == word_bytes(order, p.mark));
    assert(loaded(order, es[4], p) == dport);
    assert(passes(order, e6, dport, p));
    assert(passes(order, e5, dport, p) <==> dport == half_bytes(Order::Big, port));
    assert(passes(order, e3, word_bytes(order, p.mark), p) <==> word_bytes(order, p.mark)
        == word_bytes(order, mark) && passes(order, e4, word_bytes(order, p.mark), p));
    assert(passes(order, e1, proto, p) <==> proto == seq![17u8] && passes(order, e2, proto, p));
    assert(proto == seq![17u8] <==> p.network[9] == 17) by {
        if p.network[9] == 17 {
            assert(proto =~= seq![17u8]);
        } else {
            assert(proto[0] != seq![17u8][0]);
        }
    }
    assert(word_bytes(order, p.mark) == word_bytes(order, mark) <==> p.mark == mark) by {
        if word_bytes(order, p.mark) == word_bytes(order, mark) {
            let w = word_bytes(order, p.mark);
            assert(w.subrange(0, 4) =~= w);
            word_reads_back(order, w, 0, p.mark);
            word_reads_back(order, w, 0, mark);
        }
    }
    assert(dport == half_bytes(Order::Big, port) <==> half_at(Order::Big, p.transport, 2) == port)
        by {
        let there = half_at(Order::Big, p.transport, 2);
        assert(dport[0] == p.transport[2] && dport[1] == p.transport[3]);
        assert(there / 256 == p.transport[2] && there % 256 == p.transport[3]);
        assert(dport =~= half_bytes(Order::Big, there));
        if dport == half_bytes(Order::Big, port) {
            half_reads_back(Order::Big, p.transport, 2, port);
        }
    }
}

/// The attributes of the rule.
pub open spec fn nat_rule(order: Order, mark: u32, addr: u32, port: u16) -> Seq<u8> {
    with_nested(
        order,
        with_attr(order, nat_place(order), 7, word_bytes(order, mark)),
        4,
        exprs_bytes(order, nat_exprs(order, mark, addr, port)),
    )
}

/// The attributes that tell where the rule stands.
pub open spec fn nat_place(order: Order) -> Seq<u8> {
    with_attr(order, with_attr(order, Seq::empty(), 1, name_bytes("nat"@)), 2, name_bytes("OUTPUT"@))
}

/// The attributes that tell where the rule stands.
fn place(m: &Machine) -> (r: Vec<u8>)
    ensures
        r@ == nat_place(m.layout()),
{
    proof {
        reveal_strlit("nat");
        reveal_strlit("OUTPUT");
        name_is_short("nat"@);
        name_is_short("OUTPUT"@);
    }
    let mut attrs: Vec<u8> = Vec::new();
    rule_table(m, &mut attrs, "nat");
    rule_chain(m, &mut attrs, "OUTPUT");
    attrs
}

/// The expressions of the rule.
fn expressions(m: &Machine, mark: u32, addr: u32, port: u16) -> (r: Vec<u8>)
    ensures
        r@ == exprs_bytes(m.layout(), nat_exprs(m.layout(), mark, addr, port)),
{
    let ghost order = m.layout();
    let mut udp: Vec<u8> = Vec::new();
    udp.push(17);
    let mut marked: Vec<u8> = Vec::new();
    put_word(&mut marked, m.order(), mark);
    let mut dport: Vec<u8> = Vec::new();
    dport.push((port / 256) as u8);
    dport.push((port % 256) as u8);
    let mut wide: Vec<u8> = Vec::new();
    put_word(&mut wide, Order::Big, addr);
    while wide.len() < 16
        invariant
            4 <= wide@.len() <= 16,
            wide@ == wide_addr(addr).take(wide@.len() as int),
        decreases 16 - wide.len(),
    {
        wide.push(0);
        assert(wide@ =~= wide_addr(addr).take(wide@.len() as int));
    }
    assert(wide@ =~= wide_addr(addr));
    let info = nat_range(m, 1, &wide);
    proof {
        reveal_strlit("DNAT");
        name_is_short("DNAT"@);
    }
    assert(udp@ =~= seq![17u8]);
    assert(marked@ =~= word_bytes(order, mark));
    assert(dport@ =~= half_bytes(Order::Big, port));
    assert(info@ =~= nat_info(order, addr));
    let ghost e0 = Seq::<Expr>::empty();
    let ghost e1 = e0.push(Expr::Payload { base: 1, offset: 9, len: 1 });
    let ghost e2 = e1.push(Expr::Equals { value: udp@ });
    let ghost e3 = e2.push(Expr::Meta { key: 3 });
    let ghost e4 = e3.push(Expr::Equals { value: marked@ });
    let ghost e5 = e4.push(Expr::Payload { base: 2, offset: 2, len: 2 });
    let ghost e6 = e5.push(Expr::Equals { value: dport@ });
    let ghost e7 = e6.push(Expr::Target { name: "DNAT"@, rev: 2, info: info@ });
    proof {
        no_exprs(order);
        expr_is_pushed(order, e0, e1.last());
        expr_is_pushed(order, e1, e2.last());
        expr_is_pushed(order, e2, e3.last());
        expr_is_pushed(order, e3, e4.last());
        expr_is_pushed(order, e4, e5.last());
        expr_is_pushed(order, e5, e6.last());
        expr_is_pushed(order, e6, e7.last());
        assert(e7 =~= nat_exprs(order, mark, addr, port));
        plain_bytes(order, e1.last());
        plain_bytes(order, e2.last());
        plain_bytes(order, e3.last());
        plain_bytes(order, e4.last());
        plain_bytes(order, e5.last());
        plain_bytes(order, e6.last());
    }
    let mut es: Vec<u8> = Vec::new();
    push_payload(m, &mut es, REGISTER, 1, 9, 1);
    push_test(m, &mut es, REGISTER, EQUAL, &udp);
    push_meta(m, &mut es, REGISTER, 3);
    push_test(m, &mut es, REGISTER, EQUAL, &marked);
    push_payload(m, &mut es, REGISTER, 2, 2, 2);
    push_test(m, &mut es, REGISTER, EQUAL, &dport);
    push_target(m, &mut es, "DNAT", 2, &info);
    es
}

/// The bytes of an expression, where it is none that hands packets on.
proof fn plain_bytes(order: Order, e: Expr)
    ensures
        match e {
            Expr::Payload { base, offset, len } => e.bytes(order) == payload_expr(
                order,
                REGISTER,
                base,
                offset,
                len,
            ),
            Expr::Equals { value } => e.bytes(order) == test_expr(order, REGISTER, EQUAL, value),
            Expr::Meta { key } => e.bytes(order) == meta_expr(order, REGISTER, key),
            Expr::Target { .. } => true,
        },
{
    reveal(Expr::bytes);
}

proof fn no_exprs(order: Order)
    ensures
        exprs_bytes(order, Seq::empty()) == Seq::<u8>::empty(),
{
    reveal(exprs_bytes);
}

/// One more expression behind others.
proof fn expr_is_pushed(order: Order, es: Seq<Expr>, e: Expr)
    ensures
        exprs_bytes(order, es.push(e)) == with_nested(
            order,
            exprs_bytes(order, es),
            1,
            e.bytes(order),
        ),
{
    reveal(exprs_bytes);
    assert(es.push(e).drop_last() =~= es);
}

/// Asks for something behind what is there.
pub const APPEND: u16 = 0x800;

/// The number under which a batch is sent.
pub const RESOURCE: u16 = 10;

/// The messages that make the rule: `iptables -t nat -I OUTPUT -m mark --mark
/// <mark> -p udp --dport <port> -j DNAT --to-destination <addr>`. The rule
/// carries the mark, by which it is found again.
pub fn insert_rule(m: &Machine, seq: u32, genid: u32, mark: u32, addr: u32, port: u16) -> (r: Vec<u8>)
    ensures
        r@ == batch(
            m.layout(),
            seq,
            10,
            genid,
            2566,
            0x405,
            nf_header(2, 0) + nat_rule(m.layout(), mark, addr, port),
        ),
{
    let mut attrs = place(m);
    let mut owner: Vec<u8> = Vec::new();
    put_word(&mut owner, m.order(), mark);
    assert(owner@ =~= word_bytes(m.layout(), mark));
    rule_userdata(m, &mut attrs, &owner);
    let es = expressions(m, mark, addr, port);
    rule_expressions(m, &mut attrs, &es);
    assert(0x400u16 | 5u16 == 0x405u16) by (bit_vector);
    let rule = newrule_message(m, seq.wrapping_add(1), CREATE, 2, &attrs);
    in_batch(m, seq, genid, rule)
}

/// The request for the rules among which the rule stands.
pub fn list_rules(m: &Machine) -> (r: Request)
    ensures
        r.kind == 2567,
        r.flags == 0x300,
        r.payload@ == nf_header(2, 0) + nat_place(m.layout()),
{
    let mut r = getrule_dump(2);
    let attrs = place(m);
    r.payload.extend_from_slice(attrs.as_slice());
    assert(r.payload@ =~= nf_header(2, 0) + nat_place(m.layout()));
    r
}

/// Whether a reply is about a rule that carries a mark.
pub open spec fn carries(order: Order, reply: Seq<u8>, mark: u32) -> bool {
    bytes_under(order, behind(reply, 4), 7) == Some(word_bytes(order, mark))
}

/// Finds the handle of the first rule that carries a mark.
pub fn find_rule(m: &Machine, replies: &Vec<Vec<u8>>, mark: u32) -> (r: Result<u64, Error>)
    ensures
        match r {
            Ok(h) => exists|i: int|
                {
                    &&& 0 <= i < replies@.len()
                    &&& carries(m.layout(), (#[trigger] replies@[i])@, mark)
                    &&& forall|j: int|
                        0 <= j < i ==> !carries(m.layout(), (#[trigger] replies@[j])@, mark)
                    &&& handle_under(m.layout(), behind(replies@[i]@, 4)) == Some(h)
                },
            Err(Error::MissingAttribute) => exists|i: int|
                {
                    &&& 0 <= i < replies@.len()
                    &&& carries(m.layout(), (#[trigger] replies@[i])@, mark)
                    &&& forall|j: int|
                        0 <= j < i ==> !carries(m.layout(), (#[trigger] replies@[j])@, mark)
                    &&& handle_under(m.layout(), behind(replies@[i]@, 4)) is None
                },
            Err(e) => e is NoSuchRule && forall|i: int|
                0 <= i < replies@.len() ==> !carries(m.layout(), (#[trigger] replies@[i])@, mark),
        },
{
    let mut owner: Vec<u8> = Vec::new();
    put_word(&mut owner, m.order(), mark);
    assert(owner@ =~= word_bytes(m.layout(), mark));
    let mut i: usize = 0;
    while i < replies.len()
        invariant
            owner@ == word_bytes(m.layout(), mark),
            i <= replies@.len(),
            forall|j: int|
                0 <= j < i ==> !carries(m.layout(), (#[trigger] replies@[j])@, mark),
        decreases replies.len() - i,
    {
        let (data, handle) = rule_reply(m, &replies[i]);
        if let Some(d) = data {
            if same_bytes(&d, &owner) {
                assert(carries(m.layout(), replies@[i as int]@, mark));
                return match handle {
                    Some(h) => Ok(h),
                    None => Err(Error::MissingAttribute),
                };
            }
        }
        i += 1;
    }
    Err(Error::NoSuchRule)
}

/// The messages that take away a rule.
pub fn delete_rule(m: &Machine, seq: u32, genid: u32, handle: u64) -> (r: Vec<u8>)
    ensures
        r@ == batch(
            m.layout(),
            seq,
            10,
            genid,
            2568,
            0x805,
            nf_header(2, 0) + with_attr(
                m.layout(),
                nat_place(m.layout()),
                3,
                big_bytes(handle as nat, 8),
            ),
        ),
{
    let mut attrs = place(m);
    rule_handle(m, &mut attrs, handle);
    assert(0x800u16 | 5u16 == 0x805u16) by (bit_vector);
    let rule = delrule_message(m, seq.wrapping_add(1), APPEND, 2, &attrs);
    in_batch(m, seq, genid, rule)
}

/// The request for the generation of the rules.
pub fn generation_request() -> (r: Request)
    ensures
        r.kind == 2576,
        r.flags == 0,
        r.payload@ == nf_header(0, 0),
{
    getgen()
}

/// The generation of the rules in a reply.
pub fn generation_of(m: &Machine, reply: &Vec<u8>) -> (r: Result<u32, Error>)
    ensures
        match be_word_under(m.layout(), behind(reply@, 4), 1) {
            Some(n) => r == Ok::<u32, Error>(n),
            None => r matches Err(e) && e is MissingAttribute,
        },
{
    match gen_reply(m, reply) {
        Some(n) => Ok(n),
        None => Err(Error::MissingAttribute),
    }
}

/// The rule that is made carries its mark, by which it is found.
pub proof fn rule_carries_mark(order: Order, mark: u32, addr: u32, port: u16)
    ensures
        carries(order, nf_header(2, 0) + nat_rule(order, mark, addr, port), mark),
{
    reveal_strlit("nat");
    reveal_strlit("OUTPUT");
    name_is_short("nat"@);
    name_is_short("OUTPUT"@);
    let exprs = padded(exprs_bytes(order, nat_exprs(order, mark, addr, port)));
    let list = seq![
        (1u16, name_bytes("nat"@)),
        (2u16, name_bytes("OUTPUT"@)),
        (7u16, word_bytes(order, mark)),
        (0x8004u16, exprs),
    ];
    let l3 = list.take(3);
    let l2 = list.take(2);
    let l1 = list.take(1);
    reveal_with_fuel(attrs_bytes, 5);
    assert(list.drop_last() =~= l3);
    assert(l3.drop_last() =~= l2);
    assert(l2.drop_last() =~= l1);
    assert(l1.drop_last() =~= Seq::<(u16, Seq<u8>)>::empty());
    assert(attrs_bytes(order, list) == nat_rule(order, mark, addr, port));
    bytes_under_read_back(order, list, 2);
    let whole = nf_header(2, 0) + nat_rule(order, mark, addr, port);
    assert(behind(whole, 4) =~= nat_rule(order, mark, addr, port));
}

/// What the rule picks is handed to address translation, which puts the address in
/// place of the destination: it is both ends of the range to choose from, and the
/// port stays.
pub proof fn picked_goes_to_address(order: Order, mark: u32, addr: u32, port: u16)
    ensures
        nat_exprs(order, mark, addr, port).last() matches Expr::Target { name, rev, info } && {
            &&& name == "DNAT"@
            &&& rev == 2
            &&& info.len() == 44
            &&& info.subrange(0, 4) == word_bytes(order, 1)
            &&& info.subrange(4, 8) == word_bytes(Order::Big, addr)
            &&& info.subrange(20, 24) == word_bytes(Order::Big, addr)
            &&& forall|i: int|
                8 <= i < 20 || 24 <= i < 44 ==> #[trigger] info[i] == 0
        },
{
    let info = nat_info(order, addr);
    assert(info.subrange(0, 4) =~= word_bytes(order, 1));
    assert(info.subrange(4, 8) =~= word_bytes(Order::Big, addr));
    assert(info.subrange(20, 24) =~= word_bytes(Order::Big, addr));
}

/// The rule stands where locally made packets are translated.
pub proof fn rule_stands_at_output(order: Order, mark: u32, addr: u32, port: u16)
    ensures
        bytes_under(order, nat_rule(order, mark, addr, port), 1) == Some(
            encode_utf8("nat"@).push(0),
        ),
        bytes_under(order, nat_rule(order, mark, addr, port), 2) == Some(
            encode_utf8("OUTPUT"@).push(0),
        ),
{
    reveal_strlit("nat");
    reveal_strlit("OUTPUT");
    name_is_short("nat"@);
    name_is_short("OUTPUT"@);
    let exprs = padded(exprs_bytes(order, nat_exprs(order, mark, addr, port)));
    let list = seq![
        (1u16, name_bytes("nat"@)),
        (2u16, name_bytes("OUTPUT"@)),
        (7u16, word_bytes(order, mark)),
        (0x8004u16, exprs),
    ];
    let l3 = list.take(3);
    let l2 = list.take(2);
    let l1 = list.take(1);
    reveal_with_fuel(attrs_bytes, 5);
    assert(list.drop_last() =~= l3);
    assert(l3.drop_last() =~= l2);
    assert(l2.drop_last() =~= l1);
    assert(l1.drop_last() =~= Seq::<(u16, Seq<u8>)>::empty());
    assert(attrs_bytes(order, list) == nat_rule(order, mark, addr, port));
    bytes_under_read_back(order, list, 0);
    bytes_under_read_back(order, list, 1);
}

/// Expressions use one register, and test for equality.
pub proof fn expressions_share_register(order: Order, base: u32, offset: u32, len: u32, value: Seq<u8>)
    ensures
        (Expr::Payload { base, offset, len }).bytes(order) == payload_expr(
            order,
            1,
            base,
            offset,
            len,
        ),
        (Expr::Equals { value }).bytes(order) == test_expr(order, 1, 0, value),
        (Expr::Meta { key: base }).bytes(order) == meta_expr(order, 1, base),
{
    reveal(Expr::bytes);
}

} // verus!
