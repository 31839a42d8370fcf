//! The `.mesh` weight file.
//!
//! ```text
//! magic    4  "MESH"
//! version  2  u16 = 1
//! state    4  u32   input dimension
//! layers   2  u16   hidden layer count
//! actions  4  u32
//! hidden   4 * layers  u32 each
//! params   4 * n       i32 each, in PolicyNet::parameters() order
//! checksum 4  u32   FNV-1a over the parameter bytes
//! ```
//!
//! All integers are big-endian. The file must round-trip bit-exactly, because a
//! policy's commitment hash is computed from its parameters.
use vstd::prelude::*;

use crate::bytes::{
    be_u16, be_u32, push_bytes, push_u16, push_u32, u16_of_be, u16_of_be_injective, u32_of_be, u32_of_be_injective,
};
use crate::commit::{encode_fx, push_fx, weights_hash_spec, weights_preimage};
use crate::decimal::{decimal, push_decimal};
use crate::fixed::Fx;
use crate::net::{params_of, Layer, PolicyNet};

verus! {

/// Supported format version.
pub const VERSION: u16 = 1;

/// Most hidden layers a file may declare.
pub const MAX_LAYERS: u16 = 64;

/// Largest width a file may declare for the input, a hidden layer or the action count.
pub const MAX_DIM: u32 = 1048576;

#[derive(Debug, Clone, PartialEq, Eq)]
pub enum FormatError {
    NotMeshFile,
    UnsupportedVersion(u16),
    Truncated { need: usize, have: usize },
    ChecksumMismatch { expected: u32, got: u32 },
    ImplausibleShape(String),
    TrailingBytes(usize),
}

/// A format error as plain values: a variant tag, two numbers and a message.
pub type ErrView = (u8, int, int, Seq<char>);

/// The view of a format error.
pub open spec fn err_view(e: FormatError) -> ErrView {
    match e {
        FormatError::NotMeshFile => (0u8, 0int, 0int, Seq::<char>::empty()),
        FormatError::UnsupportedVersion(v) => (1u8, v as int, 0int, Seq::<char>::empty()),
        FormatError::Truncated { need, have } => (2u8, need as int, have as int, Seq::<char>::empty()),
        FormatError::ChecksumMismatch { expected, got } => (3u8, expected as int, got as int, Seq::<char>::empty()),
        FormatError::ImplausibleShape(m) => (4u8, 0int, 0int, m@),
        FormatError::TrailingBytes(n) => (5u8, n as int, 0int, Seq::<char>::empty()),
    }
}

pub open spec fn not_mesh() -> ErrView {
    (0u8, 0int, 0int, Seq::<char>::empty())
}

pub open spec fn unsupported(v: u16) -> ErrView {
    (1u8, v as int, 0int, Seq::<char>::empty())
}

pub open spec fn truncated(need: int, have: int) -> ErrView {
    (2u8, need, have, Seq::<char>::empty())
}

pub open spec fn checksum_mismatch(expected: u32, got: u32) -> ErrView {
    (3u8, expected as int, got as int, Seq::<char>::empty())
}

pub open spec fn implausible(msg: Seq<char>) -> ErrView {
    (4u8, 0int, 0int, msg)
}

pub open spec fn trailing(n: int) -> ErrView {
    (5u8, n, 0int, Seq::<char>::empty())
}

/// `MESH`.
pub open spec fn magic() -> Seq<u8> {
    seq![77u8, 69, 83, 72]
}

/// FNV-1a over a byte string.
pub open spec fn fnv(bytes: Seq<u8>) -> u32
    decreases bytes.len(),
{
    if bytes.len() == 0 {
        0x811c9dc5u32
    } else {
        (fnv(bytes.drop_last()) ^ (bytes.last() as u32)).wrapping_mul(0x0100_0193u32)
    }
}

/// FNV-1a: trivial to reimplement in any language. Catches truncation and corruption;
/// it is not a security control.
pub fn checksum(bytes: &[u8]) -> (h: u32)
    ensures
        h == fnv(bytes@),
{
    let mut h: u32 = 0x811c_9dc5;
    let mut i: usize = 0;
    while i < bytes.len()
        invariant
            i <= bytes@.len(),
            h == fnv(bytes@.take(i as int)),
        decreases bytes@.len() - i,
    {
        assert(bytes@.take(i as int + 1).drop_last() =~= bytes@.take(i as int));
        h = h ^ (bytes[i] as u32);
        h = h.wrapping_mul(0x0100_0193);
        i = i + 1;
    }
    assert(bytes@.take(bytes@.len() as int) =~= bytes@);
    h
}

/// Big-endian `u32` words, in order.
pub open spec fn words(ws: Seq<u32>) -> Seq<u8>
    decreases ws.len(),
{
    if ws.len() == 0 {
        Seq::empty()
    } else {
        words(ws.drop_last()) + be_u32(ws.last())
    }
}

/// The hidden widths of a network, as written to the header.
pub open spec fn hidden_words(net: PolicyNet) -> Seq<u32> {
    net.trunk@.map(|i: int, l: Layer| l.outputs as u32)
}

/// The bytes [`encode`] writes for a network.
pub open spec fn encode_spec(net: PolicyNet) -> Seq<u8> {
    let params = encode_fx(net.params_spec());
    magic() + be_u16(VERSION) + be_u32(net.state_dim_spec() as u32) + be_u16(net.trunk@.len() as u16)
        + be_u32(net.advantage_head.outputs as u32) + words(hidden_words(net)) + params
        + be_u32(fnv(params))
}

/// Serialise a network. Lossless for every network whose widths fit the header.
pub fn encode(net: &PolicyNet) -> (out: Vec<u8>)
    ensures
        out@ == encode_spec(*net),
{
    let params = net.parameters();
    let mut param_bytes: Vec<u8> = Vec::new();
    push_fx(&mut param_bytes, params.as_slice());
    assert(param_bytes@ =~= encode_fx(net.params_spec()));

    let mut out: Vec<u8> = Vec::new();
    out.push(77u8);
    out.push(69u8);
    out.push(83u8);
    out.push(72u8);
    assert(out@ =~= magic());
    push_u16(&mut out, VERSION);
    push_u32(&mut out, net.state_dim() as u32);
    push_u16(&mut out, net.trunk.len() as u16);
    push_u32(&mut out, net.action_count() as u32);
    let ghost head = out@;
    let mut i: usize = 0;
    while i < net.trunk.len()
        invariant
            i <= net.trunk@.len(),
            out@ == head + words(hidden_words(*net).take(i as int)),
        decreases net.trunk@.len() - i,
    {
        assert(hidden_words(*net).take(i as int + 1).drop_last() =~= hidden_words(*net).take(i as int));
        push_u32(&mut out, net.trunk[i].outputs as u32);
        i = i + 1;
        assert(out@ =~= head + words(hidden_words(*net).take(i as int)));
    }
    assert(hidden_words(*net).take(net.trunk@.len() as int) =~= hidden_words(*net));
    push_bytes(&mut out, param_bytes.as_slice());
    push_u32(&mut out, checksum(param_bytes.as_slice()));
    assert(out@ =~= encode_spec(*net));
    out
}

/// The big-endian `u16` at byte `p`.
pub open spec fn rd16(b: Seq<u8>, p: int) -> u16 {
    u16_of_be(b[p], b[p + 1])
}

/// The big-endian `u32` at byte `p`.
pub open spec fn rd32(b: Seq<u8>, p: int) -> u32 {
    u32_of_be(b[p], b[p + 1], b[p + 2], b[p + 3])
}

/// `need` as a `usize`, capped at `usize::MAX` (the cap never binds on a 64-bit target).
pub open spec fn cap_usize(need: int) -> int {
    if need > usize::MAX { usize::MAX as int } else { need }
}

pub open spec fn msg_state(v: u32) -> Seq<char> {
    seq!['s', 't', 'a', 't', 'e', '_', 'd', 'i', 'm', ' '] + decimal(v as nat)
}

pub open spec fn msg_actions(v: u32) -> Seq<char> {
    seq!['a', 'c', 't', 'i', 'o', 'n', 's', ' '] + decimal(v as nat)
}

pub open spec fn msg_layers(v: u16) -> Seq<char> {
    decimal(v as nat) + seq![' ', 'h', 'i', 'd', 'd', 'e', 'n', ' ', 'l', 'a', 'y', 'e', 'r', 's']
}

pub open spec fn msg_hidden(v: u32) -> Seq<char> {
    seq!['h', 'i', 'd', 'd', 'e', 'n', ' ', 'w', 'i', 'd', 't', 'h', ' '] + decimal(v as nat)
}

/// Read `count` hidden widths starting at `pos`, each checked to lie in `1..=MAX_DIM`.
pub open spec fn parse_hidden(b: Seq<u8>, pos: int, count: nat) -> Result<Seq<u32>, ErrView>
    decreases count,
{
    if count == 0 {
        Ok(Seq::empty())
    } else {
        match parse_hidden(b, pos, (count - 1) as nat) {
            Err(e) => Err(e),
            Ok(prev) => {
                let p = pos + 4 * (count - 1);
                if p + 4 > b.len() {
                    Err(truncated(p + 4, b.len() as int))
                } else {
                    let h = rd32(b, p);
                    if h == 0 || h > MAX_DIM { Err(implausible(msg_hidden(h))) } else { Ok(prev.push(h)) }
                }
            },
        }
    }
}

/// The (inputs, outputs) of every layer of a network of these widths, in parameter
/// order: hidden layers, value head, advantage head.
pub open spec fn layer_dims(state: int, hidden: Seq<int>, actions: int) -> Seq<(int, int)> {
    let w = |i: int| if i == 0 { state } else { hidden[i - 1] };
    Seq::new(
        hidden.len() + 2,
        |i: int| if i < hidden.len() { (w(i), hidden[i]) } else if i == hidden.len() { (w(i), 1) } else { (w(hidden.len() as int), actions) },
    )
}

/// Number of parameters of layers of these shapes.
pub open spec fn dims_count(dims: Seq<(int, int)>) -> int
    decreases dims.len(),
{
    if dims.len() == 0 {
        0
    } else {
        dims_count(dims.drop_last()) + dims.last().0 * dims.last().1 + dims.last().1
    }
}

/// Fixed-point values decoded from big-endian `int32` words.
pub open spec fn fx_of_bytes(b: Seq<u8>) -> Seq<Fx> {
    Seq::new((b.len() / 4) as nat, |k: int| Fx(rd32(b, 4 * k) as i32))
}

/// What a file decodes to: state width, hidden widths, action count, parameters.
pub type ShapeView = (u32, Seq<u32>, u32, Seq<Fx>);

/// The decoding of a byte string, or the first error found.
pub open spec fn decode_spec(b: Seq<u8>) -> Result<ShapeView, ErrView> {
    let len = b.len() as int;
    if len < 4 {
        Err(truncated(4, len))
    } else if b.subrange(0, 4) != magic() {
        Err(not_mesh())
    } else if len < 6 {
        Err(truncated(6, len))
    } else if rd16(b, 4) != VERSION {
        Err(unsupported(rd16(b, 4)))
    } else if len < 10 {
        Err(truncated(10, len))
    } else if len < 12 {
        Err(truncated(12, len))
    } else if len < 16 {
        Err(truncated(16, len))
    } else {
        let state = rd32(b, 6);
        let layers = rd16(b, 10);
        let actions = rd32(b, 12);
        if state == 0 || state > MAX_DIM {
            Err(implausible(msg_state(state)))
        } else if actions == 0 || actions > MAX_DIM {
            Err(implausible(msg_actions(actions)))
        } else if layers > MAX_LAYERS {
            Err(implausible(msg_layers(layers)))
        } else {
            match parse_hidden(b, 16, layers as nat) {
                Err(e) => Err(e),
                Ok(hidden) => {
                    let p = 16 + 4 * layers;
                    let n = dims_count(layer_dims(state as int, ints_of(hidden), actions as int));
                    let q = p + 4 * n;
                    if q > len {
                        Err(truncated(cap_usize(q), len))
                    } else if q + 4 > len {
                        Err(truncated(cap_usize(q + 4), len))
                    } else if rd32(b, q) != fnv(b.subrange(p, q)) {
                        Err(checksum_mismatch(rd32(b, q), fnv(b.subrange(p, q))))
                    } else if q + 4 != len {
                        Err(trailing(len - (q + 4)))
                    } else {
                        Ok((state, hidden, actions, fx_of_bytes(b.subrange(p, q))))
                    }
                },
            }
        }
    }
}

/// The widths of a network's hidden layers.
pub open spec fn hidden_ints(net: PolicyNet) -> Seq<int> {
    net.trunk@.map(|i: int, l: Layer| l.outputs as int)
}

/// The layer shapes a network's own widths call for.
pub open spec fn net_dims(net: PolicyNet) -> Seq<(int, int)> {
    layer_dims(net.state_dim_spec() as int, hidden_ints(net), net.advantage_head.outputs as int)
}

/// A network whose layers chain: each layer reads what the one before writes, the
/// value head has one output, and every vector has the length its shape implies.
pub open spec fn is_canonical(net: PolicyNet) -> bool {
    &&& net.well_formed()
    &&& forall|i: int| 0 <= i < net.all_layers().len() ==> ((#[trigger] net.all_layers()[i]).inputs as int,
        net.all_layers()[i].outputs as int) == net_dims(net)[i]
}

/// The shape and parameters of a network, as a file records them.
pub open spec fn shape_view(net: PolicyNet) -> ShapeView {
    (net.state_dim_spec() as u32, hidden_words(net), net.advantage_head.outputs as u32, net.params_spec())
}

/// A reading position in a byte slice.
pub struct Reader<'a> {
    bytes: &'a [u8],
    pos: usize,
}

impl<'a> Reader<'a> {
    pub closed spec fn data(&self) -> Seq<u8> {
        self.bytes@
    }

    pub closed spec fn at(&self) -> int {
        self.pos as int
    }

    pub closed spec fn inv(&self) -> bool {
        self.pos <= self.bytes@.len()
    }

    pub fn new(bytes: &'a [u8]) -> (r: Reader<'a>)
        ensures
            r.inv(),
            r.data() == bytes@,
            r.at() == 0,
    {
        Reader { bytes, pos: 0 }
    }

    /// The next `n` bytes, or a truncation error naming how many bytes were needed.
    pub fn take(&mut self, n: usize) -> (r: Result<&'a [u8], FormatError>)
        requires
            old(self).inv(),
        ensures
            final(self).inv(),
            final(self).data() == old(self).data(),
            match r {
                Ok(s) => old(self).at() + n <= old(self).data().len()
                    && s@ == old(self).data().subrange(old(self).at(), old(self).at() + n)
                    && final(self).at() == old(self).at() + n,
                Err(e) => old(self).at() + n > old(self).data().len()
                    && err_view(e) == truncated(cap_usize(old(self).at() + n), old(self).data().len() as int)
                    && final(self).at() == old(self).at(),
            },
    {
        if n > self.bytes.len() - self.pos {
            let need = if n > usize::MAX - self.pos { usize::MAX } else { self.pos + n };
            return Err(FormatError::Truncated { need, have: self.bytes.len() });
        }
        let out = &self.bytes[self.pos..self.pos + n];
        self.pos = self.pos + n;
        Ok(out)
    }

    pub fn u16(&mut self) -> (r: Result<u16, FormatError>)
        requires
            old(self).inv(),
        ensures
            final(self).inv(),
            final(self).data() == old(self).data(),
            match r {
                Ok(v) => old(self).at() + 2 <= old(self).data().len()
                    && v == rd16(old(self).data(), old(self).at())
                    && final(self).at() == old(self).at() + 2,
                Err(e) => old(self).at() + 2 > old(self).data().len()
                    && err_view(e) == truncated(cap_usize(old(self).at() + 2), old(self).data().len() as int),
            },
    {
        let b = self.take(2)?;
        Ok(((b[0] as u16) << 8) | (b[1] as u16))
    }

    pub fn u32(&mut self) -> (r: Result<u32, FormatError>)
        requires
            old(self).inv(),
        ensures
            final(self).inv(),
            final(self).data() == old(self).data(),
            match r {
                Ok(v) => old(self).at() + 4 <= old(self).data().len()
                    && v == rd32(old(self).data(), old(self).at())
                    && final(self).at() == old(self).at() + 4,
                Err(e) => old(self).at() + 4 > old(self).data().len()
                    && err_view(e) == truncated(cap_usize(old(self).at() + 4), old(self).data().len() as int),
            },
    {
        let b = self.take(4)?;
        Ok(((b[0] as u32) << 24) | ((b[1] as u32) << 16) | ((b[2] as u32) << 8) | (b[3] as u32))
    }

    pub fn is_empty(&self) -> (b: bool)
        requires
            self.inv(),
        ensures
            b == (self.at() == self.data().len()),
    {
        self.pos == self.bytes.len()
    }

    pub fn remaining(&self) -> (n: usize)
        requires
            self.inv(),
        ensures
            n == self.data().len() - self.at(),
    {
        self.bytes.len() - self.pos
    }
}

/// A layer whose weights and biases are consecutive runs of `params` starting at `off`.
fn layer_from(params: &[Fx], off: usize, inputs: usize, outputs: usize) -> (l: Layer)
    requires
        off + inputs * outputs + outputs <= params@.len(),
    ensures
        l.inputs == inputs,
        l.outputs == outputs,
        l.weights@ == params@.subrange(off as int, off + inputs * outputs),
        l.biases@ == params@.subrange(off + inputs * outputs, off + inputs * outputs + outputs),
        l.well_formed(),
{
    let plen = params.len();
    assert(0 <= inputs * outputs) by (nonlinear_arith);
    let mid = off + inputs * outputs;
    let end = mid + outputs;
    let weights = vstd::slice::slice_to_vec(&params[off..mid]);
    let biases = vstd::slice::slice_to_vec(&params[mid..end]);
    Layer { inputs, outputs, weights, biases }
}

/// Decode the parameter words.
fn fx_from_bytes(b: &[u8]) -> (v: Vec<Fx>)
    requires
        b@.len() % 4 == 0,
    ensures
        v@ == fx_of_bytes(b@),
{
    let bl = b.len();
    let n = bl / 4;
    let mut v: Vec<Fx> = Vec::with_capacity(n);
    let mut k: usize = 0;
    while k < n
        invariant
            n == b@.len() / 4,
            bl == b@.len(),
            b@.len() % 4 == 0,
            k <= n,
            v@ == fx_of_bytes(b@).take(k as int),
        decreases n - k,
    {
        assert(4 * k + 4 <= b@.len());
        let p = 4 * k;
        let w = ((b[p] as u32) << 24) | ((b[p + 1] as u32) << 16) | ((b[p + 2] as u32) << 8) | (b[p + 3] as u32);
        let x: i32 = #[verifier::truncate] (w as i32);
        v.push(Fx(x));
        k = k + 1;
        assert(v@ =~= fx_of_bytes(b@).take(k as int));
    }
    assert(fx_of_bytes(b@).take(n as int) =~= fx_of_bytes(b@));
    v
}

/// Machine-integer shapes as mathematical ones.
pub open spec fn dims_int(d: Seq<(u32, u32)>) -> Seq<(int, int)> {
    Seq::new(d.len(), |i: int| (d[i].0 as int, d[i].1 as int))
}

/// Machine-integer widths as mathematical ones.
pub open spec fn ints_of(h: Seq<u32>) -> Seq<int> {
    Seq::new(h.len(), |i: int| h[i] as int)
}

/// The layer shapes for these widths, as machine integers.
fn dims_exec(state: u32, hidden: &Vec<u32>, actions: u32) -> (d: Vec<(u32, u32)>)
    ensures
        dims_int(d@) == layer_dims(state as int, ints_of(hidden@), actions as int),
{
    let ghost target = layer_dims(state as int, ints_of(hidden@), actions as int);
    let ghost hs = ints_of(hidden@);
    let mut d: Vec<(u32, u32)> = Vec::new();
    let mut width = state;
    let mut i: usize = 0;
    while i < hidden.len()
        invariant
            i <= hidden@.len(),
            hs == ints_of(hidden@),
            target == layer_dims(state as int, hs, actions as int),
            width as int == (if i == 0 { state as int } else { hs[i - 1] }),
            d@.len() == i,
            forall|k: int| 0 <= k < i ==> (#[trigger] d@[k]).0 as int == target[k].0 && d@[k].1 as int == target[k].1,
        decreases hidden@.len() - i,
    {
        d.push((width, hidden[i]));
        width = hidden[i];
        i = i + 1;
    }
    d.push((width, 1));
    d.push((width, actions));
    assert(dims_int(d@) =~= target);
    d
}

/// Once the hidden-width scan has failed, reading further widths fails the same way.
proof fn lemma_parse_hidden_error_persists(b: Seq<u8>, pos: int, k: nat, m: nat)
    requires
        k <= m,
        parse_hidden(b, pos, k) is Err,
    ensures
        parse_hidden(b, pos, m) == parse_hidden(b, pos, k),
    decreases m - k,
{
    if k < m {
        lemma_parse_hidden_error_persists(b, pos, k, (m - 1) as nat);
    }
}

proof fn lemma_dims_count_step(d: Seq<(int, int)>, i: int)
    requires
        0 <= i < d.len(),
    ensures
        dims_count(d.take(i + 1)) == dims_count(d.take(i)) + d[i].0 * d[i].1 + d[i].1,
{
    assert(d.take(i + 1).drop_last() =~= d.take(i));
}

proof fn lemma_dims_count_monotone(d: Seq<(int, int)>, i: int, j: int)
    requires
        0 <= i <= j <= d.len(),
        forall|k: int| 0 <= k < d.len() ==> (#[trigger] d[k]).0 >= 0 && d[k].1 >= 0,
    ensures
        dims_count(d.take(i)) <= dims_count(d.take(j)),
    decreases j - i,
{
    if i < j {
        lemma_dims_count_step(d, j - 1);
        lemma_dims_count_monotone(d, i, j - 1);
        assert(d[j - 1].0 * d[j - 1].1 >= 0) by (nonlinear_arith)
            requires
                d[j - 1].0 >= 0,
                d[j - 1].1 >= 0,
        ;
    }
}

/// The parameter count of these shapes.
fn count_params(d: &Vec<(u32, u32)>) -> (n: u64)
    requires
        d@.len() <= 66,
        forall|k: int| 0 <= k < d@.len() ==> (#[trigger] d@[k]).0 <= MAX_DIM && d@[k].1 <= MAX_DIM,
    ensures
        n == dims_count(dims_int(d@)),
        n <= 66 * 0x100_0010_0000,
{
    let ghost di = dims_int(d@);
    let mut n: u64 = 0;
    let mut i: usize = 0;
    while i < d.len()
        invariant
            i <= d@.len(),
            d@.len() <= 66,
            di == dims_int(d@),
            forall|k: int| 0 <= k < d@.len() ==> (#[trigger] d@[k]).0 <= MAX_DIM && d@[k].1 <= MAX_DIM,
            n == dims_count(di.take(i as int)),
            n <= i * 0x100_0010_0000,
        decreases d@.len() - i,
    {
        let (a, b) = d[i];
        assert((a as int) * (b as int) <= 0x100_0000_0000) by (nonlinear_arith)
            requires
                a <= 0x10_0000,
                b <= 0x10_0000,
        ;
        proof {
            lemma_dims_count_step(di, i as int);
        }
        n = n + (a as u64) * (b as u64) + (b as u64);
        i = i + 1;
    }
    assert(di.take(d@.len() as int) =~= di);
    n
}

/// Parse a `.mesh` file. Every check happens before the network is built, and each
/// failure names what was wrong.
pub fn decode(bytes: &[u8]) -> (r: Result<PolicyNet, FormatError>)
    ensures
        decode_outcome(bytes@, r),
{
    let ghost b = bytes@;
    let mut cursor = Reader::new(bytes);
    let m = match cursor.take(4) {
        Ok(m) => m,
        Err(e) => return Err(e),
    };
    if !(m[0] == 77u8 && m[1] == 69u8 && m[2] == 83u8 && m[3] == 72u8) {
        assert(b.subrange(0, 4) != magic()) by {
            if b.subrange(0, 4) == magic() {
                assert(m@ == magic());
            }
        }
        return Err(FormatError::NotMeshFile);
    }
    assert(b.subrange(0, 4) =~= magic());
    let version = match cursor.u16() {
        Ok(v) => v,
        Err(e) => return Err(e),
    };
    if version != VERSION {
        return Err(FormatError::UnsupportedVersion(version));
    }
    let state_dim = match cursor.u32() {
        Ok(v) => v,
        Err(e) => return Err(e),
    };
    let layer_count = match cursor.u16() {
        Ok(v) => v,
        Err(e) => return Err(e),
    };
    let actions = match cursor.u32() {
        Ok(v) => v,
        Err(e) => return Err(e),
    };
    if state_dim == 0 || state_dim > MAX_DIM {
        proof {
            reveal_strlit("state_dim ");
        }
        let mut msg = String::from_str("state_dim ");
        push_decimal(&mut msg, state_dim as u64);
        assert(msg@ =~= msg_state(state_dim));
        return Err(FormatError::ImplausibleShape(msg));
    }
    if actions == 0 || actions > MAX_DIM {
        proof {
            reveal_strlit("actions ");
        }
        let mut msg = String::from_str("actions ");
        push_decimal(&mut msg, actions as u64);
        assert(msg@ =~= msg_actions(actions));
        return Err(FormatError::ImplausibleShape(msg));
    }
    if layer_count > MAX_LAYERS {
        proof {
            reveal_strlit(" hidden layers");
        }
        let mut msg = String::new();
        push_decimal(&mut msg, layer_count as u64);
        msg.append(" hidden layers");
        assert(msg@ =~= msg_layers(layer_count));
        return Err(FormatError::ImplausibleShape(msg));
    }

    let mut hidden: Vec<u32> = Vec::new();
    let mut i: u16 = 0;
    while i < layer_count
        invariant
            cursor.inv(),
            cursor.data() == b,
            b == bytes@,
            b.len() >= 16,
            layer_count <= MAX_LAYERS,
            i <= layer_count,
            b.subrange(0, 4) == magic(),
            rd16(b, 4) == VERSION,
            rd32(b, 6) == state_dim,
            rd16(b, 10) == layer_count,
            rd32(b, 12) == actions,
            0 < state_dim <= MAX_DIM,
            0 < actions <= MAX_DIM,
            cursor.at() == 16 + 4 * i,
            parse_hidden(b, 16, i as nat) == Ok::<Seq<u32>, ErrView>(hidden@),
        decreases layer_count - i,
    {
        let h = match cursor.u32() {
            Ok(h) => h,
            Err(e) => {
                proof {
                    assert(parse_hidden(b, 16, (i + 1) as nat) == Err::<Seq<u32>, ErrView>(err_view(e)));
                    lemma_parse_hidden_error_persists(b, 16, (i + 1) as nat, layer_count as nat);
                    assert(parse_hidden(b, 16, rd16(b, 10) as nat) == Err::<Seq<u32>, ErrView>(err_view(e)));
                    assert(!(rd16(b, 10) > MAX_LAYERS));
                    assert(decode_spec(b) == Err::<ShapeView, ErrView>(err_view(e)));
                }
                return Err(e);
            },
        };
        if h == 0 || h > MAX_DIM {
            proof {
                reveal_strlit("hidden width ");
            }
            let mut msg = String::from_str("hidden width ");
            push_decimal(&mut msg, h as u64);
            assert(msg@ =~= msg_hidden(h));
            proof {
                assert(parse_hidden(b, 16, (i + 1) as nat) == Err::<Seq<u32>, ErrView>(implausible(msg@)));
                lemma_parse_hidden_error_persists(b, 16, (i + 1) as nat, layer_count as nat);
            }
            return Err(FormatError::ImplausibleShape(msg));
        }
        hidden.push(h);
        i = i + 1;
    }
    assert(parse_hidden(b, 16, layer_count as nat) == Ok::<Seq<u32>, ErrView>(hidden@));

    proof {
        lemma_parse_hidden_ok(b, 16, layer_count as nat);
    }
    let dims = dims_exec(state_dim, &hidden, actions);
    let ghost di = dims_int(dims@);
    assert forall|k: int| 0 <= k < dims@.len() implies (#[trigger] dims@[k]).0 <= MAX_DIM && dims@[k].1 <= MAX_DIM by {
        assert(di[k] == (dims@[k].0 as int, dims@[k].1 as int));
        if k > 0 && k <= hidden@.len() {
            assert(ints_of(hidden@)[k - 1] == hidden@[k - 1] as int);
        }
        if k < hidden@.len() {
            assert(ints_of(hidden@)[k] == hidden@[k] as int);
        }
    }
    let n = count_params(&dims);
    let p = cursor.remaining();
    let want: u64 = 4 * n;
    if want > p as u64 {
        let pos: u64 = (bytes.len() - p) as u64;
        let q: u64 = pos + want;
        let need: usize = if q > usize::MAX as u64 { usize::MAX } else { q as usize };
        return Err(FormatError::Truncated { need, have: bytes.len() });
    }
    let param_bytes = match cursor.take(want as usize) {
        Ok(s) => s,
        Err(e) => return Err(e),
    };
    let stated = match cursor.u32() {
        Ok(v) => v,
        Err(e) => return Err(e),
    };
    let actual = checksum(param_bytes);
    if stated != actual {
        return Err(FormatError::ChecksumMismatch { expected: stated, got: actual });
    }
    if !cursor.is_empty() {
        return Err(FormatError::TrailingBytes(cursor.remaining()));
    }
    let params = fx_from_bytes(param_bytes);
    let net = assemble(&dims, &params, &hidden, state_dim, actions);
    proof {
        assert forall|i: int| 0 <= i < net.trunk@.len() implies 1 <= #[trigger] net.trunk@[i].outputs <= MAX_DIM by {
            assert(hidden_ints(net)[i] == net.trunk@[i].outputs as int);
            assert(ints_of(hidden@)[i] == hidden@[i] as int);
        }
    }
    Ok(net)
}

proof fn lemma_parse_hidden_ok(b: Seq<u8>, pos: int, k: nat)
    requires
        parse_hidden(b, pos, k) is Ok,
    ensures
        parse_hidden(b, pos, k)->Ok_0.len() == k,
        forall|j: int| 0 <= j < k ==> 1 <= #[trigger] parse_hidden(b, pos, k)->Ok_0[j] <= MAX_DIM,
    decreases k,
{
    if k > 0 {
        lemma_parse_hidden_ok(b, pos, (k - 1) as nat);
    }
}

#[verifier::rlimit(40)]
/// Build a network whose layers have the shapes `dims` and take their parameters, in
/// order, from `params`.
fn assemble(dims: &Vec<(u32, u32)>, params: &Vec<Fx>, hidden: &Vec<u32>, state: u32, actions: u32) -> (net: PolicyNet)
    requires
        dims_int(dims@) == layer_dims(state as int, ints_of(hidden@), actions as int),
        params@.len() == dims_count(dims_int(dims@)),
    ensures
        shape_view(net) == (state, hidden@, actions, params@),
        is_canonical(net),
        net.state_dim_spec() as int == state as int,
        net.advantage_head.outputs as int == actions as int,
        hidden_ints(net) == ints_of(hidden@),
{
    let ghost di = dims_int(dims@);
    let hl = hidden.len();
    let plen = params.len();
    assert(dims@.len() == hl + 2);
    assert forall|k: int| 0 <= k < di.len() implies (#[trigger] di[k]).0 >= 0 && di[k].1 >= 0 by {
        assert(di[k] == (dims@[k].0 as int, dims@[k].1 as int));
    }
    let mut trunk: Vec<Layer> = Vec::new();
    let mut off: usize = 0;
    let mut i: usize = 0;
    while i < hl
        invariant
            hl == hidden@.len(),
            dims@.len() == hl + 2,
            di == dims_int(dims@),
            di == layer_dims(state as int, ints_of(hidden@), actions as int),
            params@.len() == dims_count(di),
            plen == params@.len(),
            forall|k: int| 0 <= k < di.len() ==> (#[trigger] di[k]).0 >= 0 && di[k].1 >= 0,
            i <= hl,
            off == dims_count(di.take(i as int)),
            trunk@.len() == i,
            params_of(trunk@) == params@.take(off as int),
            forall|k: int| 0 <= k < i ==> (#[trigger] trunk@[k]).well_formed()
                && trunk@[k].inputs as int == di[k].0 && trunk@[k].outputs as int == di[k].1,
        decreases hl - i,
    {
        let (a, c) = dims[i];
        assert(di[i as int] == (a as int, c as int));
        proof {
            lemma_dims_count_step(di, i as int);
            lemma_dims_count_monotone(di, i as int + 1, di.len() as int);
            assert(di.take(di.len() as int) =~= di);
        }
        assert(off + a * c + c <= plen);
        let l = layer_from(params.as_slice(), off, a as usize, c as usize);
        let ghost before = trunk@;
        trunk.push(l);
        assert(trunk@.drop_last() =~= before);
        assert(params@.take(off as int) + l.weights@ + l.biases@ =~= params@.take(off + a * c + c));
        off = off + (a as usize) * (c as usize) + (c as usize);
        i = i + 1;
    }
    let (va, vc) = dims[hl];
    assert(di[hl as int] == (va as int, vc as int));
    proof {
        lemma_dims_count_step(di, hl as int);
        lemma_dims_count_monotone(di, hl as int + 1, di.len() as int);
        assert(di.take(di.len() as int) =~= di);
    }
    assert(off + va * vc + vc <= plen);
    let value_head = layer_from(params.as_slice(), off, va as usize, vc as usize);
    let off2 = off + (va as usize) * (vc as usize) + (vc as usize);
    let dl = dims.len();
    let (aa, ac) = dims[hl + 1];
    assert(di[hl as int + 1] == (aa as int, ac as int));
    proof {
        lemma_dims_count_step(di, hl as int + 1);
        assert(di.take(hl as int + 2) =~= di);
    }
    let advantage_head = layer_from(params.as_slice(), off2, aa as usize, ac as usize);
    let net = PolicyNet { trunk, value_head, advantage_head };
    proof {
        let layers = net.all_layers();
        assert(layers.drop_last().drop_last() =~= net.trunk@);
        assert(layers.drop_last().last() == value_head);
        assert(layers.last() == advantage_head);
        assert(params@.take(off as int) + value_head.weights@ + value_head.biases@ =~= params@.take(off2 as int));
        assert(params@.take(off2 as int) + advantage_head.weights@ + advantage_head.biases@ =~= params@);
        assert(params_of(layers.drop_last()) == params_of(net.trunk@) + value_head.weights@ + value_head.biases@);
        assert(params_of(layers) == params_of(layers.drop_last()) + advantage_head.weights@ + advantage_head.biases@);
        assert(net.params_spec() =~= params@);
        assert(hidden_words(net) =~= hidden@);
        assert(hidden_ints(net) =~= ints_of(hidden@));
        assert(net.state_dim_spec() as int == state as int);
        assert(net_dims(net) == di);
        assert forall|k: int| 0 <= k < layers.len() implies ((#[trigger] layers[k]).inputs as int,
            layers[k].outputs as int) == net_dims(net)[k] by {
            if k < hl {
                assert(layers[k] == net.trunk@[k]);
            }
        }
    }
    net
}

/// The widths a header can hold: input and action counts in `1..=MAX_DIM`, at most
/// `MAX_LAYERS` hidden layers, each in `1..=MAX_DIM`.
pub open spec fn fits_header(net: PolicyNet) -> bool {
    &&& 1 <= net.state_dim_spec() <= MAX_DIM
    &&& 1 <= net.advantage_head.outputs <= MAX_DIM
    &&& net.trunk@.len() <= MAX_LAYERS
    &&& forall|i: int| 0 <= i < net.trunk@.len() ==> 1 <= #[trigger] net.trunk@[i].outputs <= MAX_DIM
}

proof fn lemma_encode_fx_index(v: Seq<Fx>)
    ensures
        encode_fx(v).len() == 4 * v.len(),
        forall|k: int| 0 <= k < v.len() ==> #[trigger] encode_fx(v).subrange(4 * k, 4 * k + 4) == be_u32(v[k].0 as u32),
    decreases v.len(),
{
    if v.len() > 0 {
        lemma_encode_fx_index(v.drop_last());
        let a = encode_fx(v.drop_last());
        assert forall|k: int| 0 <= k < v.len() implies #[trigger] encode_fx(v).subrange(4 * k, 4 * k + 4) == be_u32(v[k].0 as u32) by {
            if k < v.len() - 1 {
                assert(encode_fx(v).subrange(4 * k, 4 * k + 4) =~= a.subrange(4 * k, 4 * k + 4));
                assert(v.drop_last()[k] == v[k]);
            } else {
                assert(encode_fx(v).subrange(4 * k, 4 * k + 4) =~= be_u32(v.last().0 as u32));
            }
        }
    }
}

proof fn lemma_words_index(ws: Seq<u32>)
    ensures
        words(ws).len() == 4 * ws.len(),
        forall|k: int| 0 <= k < ws.len() ==> #[trigger] words(ws).subrange(4 * k, 4 * k + 4) == be_u32(ws[k]),
    decreases ws.len(),
{
    if ws.len() > 0 {
        lemma_words_index(ws.drop_last());
        let a = words(ws.drop_last());
        assert forall|k: int| 0 <= k < ws.len() implies #[trigger] words(ws).subrange(4 * k, 4 * k + 4) == be_u32(ws[k]) by {
            if k < ws.len() - 1 {
                assert(words(ws).subrange(4 * k, 4 * k + 4) =~= a.subrange(4 * k, 4 * k + 4));
                assert(ws.drop_last()[k] == ws[k]);
            } else {
                assert(words(ws).subrange(4 * k, 4 * k + 4) =~= be_u32(ws.last()));
            }
        }
    }
}

proof fn lemma_rd32_be(b: Seq<u8>, p: int, v: u32)
    requires
        0 <= p,
        p + 4 <= b.len(),
        b.subrange(p, p + 4) == be_u32(v),
    ensures
        rd32(b, p) == v,
{
    assert(b[p] == be_u32(v)[0]);
    assert(b[p + 1] == be_u32(v)[1]);
    assert(b[p + 2] == be_u32(v)[2]);
    assert(b[p + 3] == be_u32(v)[3]);
    crate::bytes::u32_round_trip(v);
}

proof fn lemma_fx_of_encoded(v: Seq<Fx>)
    ensures
        fx_of_bytes(encode_fx(v)) == v,
{
    lemma_encode_fx_index(v);
    let b = encode_fx(v);
    assert forall|k: int| 0 <= k < v.len() implies #[trigger] fx_of_bytes(b)[k] == v[k] by {
        assert(b.subrange(4 * k, 4 * k + 4) == be_u32(v[k].0 as u32));
        lemma_rd32_be(b, 4 * k, v[k].0 as u32);
        let x = v[k].0;
        assert((x as u32) as i32 == x) by (bit_vector);
    }
    assert(fx_of_bytes(b) =~= v);
}

proof fn lemma_parse_hidden_words(b: Seq<u8>, ws: Seq<u32>, k: nat)
    requires
        k <= ws.len(),
        16 + 4 * ws.len() <= b.len(),
        forall|j: int| 0 <= j < ws.len() ==> #[trigger] rd32(b, 16 + 4 * j) == ws[j],
        forall|j: int| 0 <= j < ws.len() ==> 1 <= #[trigger] ws[j] <= MAX_DIM,
    ensures
        parse_hidden(b, 16, k) == Ok::<Seq<u32>, ErrView>(ws.take(k as int)),
    decreases k,
{
    if k > 0 {
        lemma_parse_hidden_words(b, ws, (k - 1) as nat);
        assert(rd32(b, 16 + 4 * (k - 1)) == ws[k - 1]);
        assert(ws.take(k - 1).push(ws[k - 1]) =~= ws.take(k as int));
        assert(16 + 4 * (k - 1) + 4 <= b.len());
    } else {
        assert(ws.take(0) =~= Seq::<u32>::empty());
    }
}

proof fn lemma_params_len(layers: Seq<Layer>, dims: Seq<(int, int)>)
    requires
        layers.len() == dims.len(),
        forall|i: int| 0 <= i < layers.len() ==> (#[trigger] layers[i]).well_formed()
            && (layers[i].inputs as int, layers[i].outputs as int) == dims[i],
    ensures
        params_of(layers).len() == dims_count(dims),
    decreases layers.len(),
{
    if layers.len() > 0 {
        lemma_params_len(layers.drop_last(), dims.drop_last());
        let l = layers.last();
        assert(layers[layers.len() - 1] == l);
        assert(l.weights@.len() == l.inputs * l.outputs);
    }
}

/// The header shape of a network that fits the header names its own layer shapes.
proof fn lemma_view_dims(net: PolicyNet)
    requires
        fits_header(net),
    ensures
        ints_of(hidden_words(net)) == hidden_ints(net),
        layer_dims(net.state_dim_spec() as u32 as int, ints_of(hidden_words(net)), net.advantage_head.outputs as u32 as int)
            == net_dims(net),
{
    assert(ints_of(hidden_words(net)) =~= hidden_ints(net));
}

/// Saving and loading is lossless: the bytes `encode` writes for a chained network that
/// fits the header decode to exactly that network's widths and parameters.
pub proof fn round_trip(net: PolicyNet)
    requires
        is_canonical(net),
        fits_header(net),
    ensures
        decode_spec(encode_spec(net)) == Ok::<ShapeView, ErrView>(shape_view(net)),
{
    let b = encode_spec(net);
    let params = net.params_spec();
    let pb = encode_fx(params);
    let hw = hidden_words(net);
    let s = net.state_dim_spec() as u32;
    let l = net.trunk@.len() as u16;
    let a = net.advantage_head.outputs as u32;
    lemma_encode_fx_index(params);
    lemma_words_index(hw);
    let head = magic() + be_u16(VERSION) + be_u32(s) + be_u16(l) + be_u32(a);
    assert(head.len() == 16);
    assert(b =~= head + words(hw) + pb + be_u32(fnv(pb)));
    assert(b.subrange(0, 4) =~= magic());
    assert(b.subrange(4, 6) =~= be_u16(VERSION));
    crate::bytes::u16_round_trip(VERSION);
    assert(rd16(b, 4) == VERSION);
    assert(b.subrange(6, 10) =~= be_u32(s));
    lemma_rd32_be(b, 6, s);
    assert(b.subrange(10, 12) =~= be_u16(l));
    crate::bytes::u16_round_trip(l);
    assert(rd16(b, 10) == l);
    assert(b.subrange(12, 16) =~= be_u32(a));
    lemma_rd32_be(b, 12, a);
    assert(hw.len() == net.trunk@.len());
    assert forall|j: int| 0 <= j < hw.len() implies #[trigger] rd32(b, 16 + 4 * j) == hw[j] by {
        assert(b.subrange(16 + 4 * j, 16 + 4 * j + 4) =~= words(hw).subrange(4 * j, 4 * j + 4));
        lemma_rd32_be(b, 16 + 4 * j, hw[j]);
    }
    assert forall|j: int| 0 <= j < hw.len() implies 1 <= #[trigger] hw[j] <= MAX_DIM by {
        assert(hw[j] == net.trunk@[j].outputs as u32);
        assert(1 <= net.trunk@[j].outputs <= MAX_DIM);
    }
    lemma_parse_hidden_words(b, hw, l as nat);
    assert(hw.take(l as int) =~= hw);
    lemma_view_dims(net);
    lemma_params_len(net.all_layers(), net_dims(net));
    let p = 16 + 4 * (l as int);
    let q = p + 4 * params.len();
    assert(b.subrange(p, q) =~= pb);
    assert(b.subrange(q, q + 4) =~= be_u32(fnv(pb)));
    lemma_rd32_be(b, q, fnv(pb));
    lemma_fx_of_encoded(params);
}

/// Reading hidden widths looks only at the bytes it reads: a longer string with the same
/// prefix reads the same.
proof fn lemma_parse_hidden_prefix(b: Seq<u8>, c: Seq<u8>, pos: int, count: nat)
    requires
        0 <= pos,
        pos + 4 * count <= b.len(),
        b.len() <= c.len(),
        c.subrange(0, b.len() as int) == b,
    ensures
        parse_hidden(c, pos, count) == parse_hidden(b, pos, count),
    decreases count,
{
    if count > 0 {
        lemma_parse_hidden_prefix(b, c, pos, (count - 1) as nat);
        let p = pos + 4 * (count - 1);
        assert(c[p] == b[p] && c[p + 1] == b[p + 1] && c[p + 2] == b[p + 2] && c[p + 3] == b[p + 3]) by {
            assert(c.subrange(0, b.len() as int)[p] == c[p]);
            assert(c.subrange(0, b.len() as int)[p + 3] == c[p + 3]);
            assert(c.subrange(0, b.len() as int)[p + 1] == c[p + 1]);
            assert(c.subrange(0, b.len() as int)[p + 2] == c[p + 2]);
        }
    }
}

/// Bytes that decode are read to their end: with anything appended they are refused
/// as that many trailing bytes.
#[verifier::rlimit(60)]
proof fn lemma_trailing(b: Seq<u8>, extra: Seq<u8>)
    requires
        decode_spec(b) is Ok,
        extra.len() > 0,
    ensures
        decode_spec(b + extra) == Err::<ShapeView, ErrView>(trailing(extra.len() as int)),
{
    let c = b + extra;
    assert(b.len() >= 16);
    assert(c.subrange(0, b.len() as int) =~= b);
    assert(c.subrange(0, 4) =~= b.subrange(0, 4));
    let layers = rd16(b, 10);
    assert(rd16(c, 4) == rd16(b, 4));
    assert(rd32(c, 6) == rd32(b, 6));
    assert(rd16(c, 10) == layers);
    assert(rd32(c, 12) == rd32(b, 12));
    lemma_parse_hidden_ok_len(b, layers as nat);
    lemma_parse_hidden_prefix(b, c, 16, layers as nat);
    let hidden = parse_hidden(b, 16, layers as nat)->Ok_0;
    let p = 16 + 4 * layers;
    let d = layer_dims(rd32(b, 6) as int, ints_of(hidden), rd32(b, 12) as int);
    let n = dims_count(d);
    assert forall|k: int| 0 <= k < d.len() implies (#[trigger] d[k]).0 >= 0 && d[k].1 >= 0 by {
        if k > 0 && k <= hidden.len() {
            assert(ints_of(hidden)[k - 1] >= 0);
        }
        if k < hidden.len() {
            assert(ints_of(hidden)[k] >= 0);
        }
    }
    lemma_dims_count_monotone(d, 0, d.len() as int);
    assert(d.take(0) =~= Seq::<(int, int)>::empty());
    assert(d.take(d.len() as int) =~= d);
    let q = p + 4 * n;
    assert(q + 4 == b.len());
    assert(c.subrange(p, q) =~= b.subrange(p, q));
    assert(rd32(c, q) == rd32(b, q));
}

/// Where hidden widths were read, their bytes lie inside the string.
proof fn lemma_parse_hidden_ok_len(b: Seq<u8>, count: nat)
    requires
        b.len() >= 16,
        parse_hidden(b, 16, count) is Ok,
    ensures
        16 + 4 * count <= b.len(),
    decreases count,
{
    if count > 0 {
        lemma_parse_hidden_ok_len(b, (count - 1) as nat);
    }
}

/// A file is read to its end: anything appended to the bytes `encode` writes is
/// refused as that many trailing bytes.
pub proof fn appended_bytes_are_refused(net: PolicyNet, extra: Seq<u8>)
    requires
        is_canonical(net),
        fits_header(net),
        extra.len() > 0,
    ensures
        decode_spec(encode_spec(net) + extra) == Err::<ShapeView, ErrView>(trailing(extra.len() as int)),
{
    round_trip(net);
    lemma_trailing(encode_spec(net), extra);
}

/// What decoding `bytes` gives: a chained network within the header's limits whose
/// widths and parameters are what the bytes record, or the first error they hold.
pub open spec fn decode_outcome(bytes: Seq<u8>, r: Result<PolicyNet, FormatError>) -> bool {
    match r {
        Ok(net) => decode_spec(bytes) == Ok::<ShapeView, ErrView>(shape_view(net)) && is_canonical(net)
            && fits_header(net),
        Err(e) => decode_spec(bytes) == Err::<ShapeView, ErrView>(err_view(e)),
    }
}

/// A layer as values: its widths and the contents of its weight and bias vectors.
pub open spec fn layer_values(l: Layer) -> (usize, usize, Seq<Fx>, Seq<Fx>) {
    (l.inputs, l.outputs, l.weights@, l.biases@)
}

/// A network as values: its layers, hidden ones first, then the value and advantage heads.
pub open spec fn net_values(net: PolicyNet) -> Seq<(usize, usize, Seq<Fx>, Seq<Fx>)> {
    net.all_layers().map_values(|l: Layer| layer_values(l))
}

/// Decoding the bytes `encode` writes for a chained network that fits the header never
/// fails and gives back that network: every layer's widths, weights and biases, and so
/// the same weights commitment.
pub proof fn decode_gives_back_the_network(net: PolicyNet, r: Result<PolicyNet, FormatError>)
    requires
        is_canonical(net),
        fits_header(net),
        decode_outcome(encode_spec(net), r),
    ensures
        r is Ok,
        net_values(r->Ok_0) == net_values(net),
        weights_hash_spec(r->Ok_0) == weights_hash_spec(net),
{
    round_trip(net);
    let d = r->Ok_0;
    shape_determines_network(net, d);
    shape_determines_weights_hash(d, net);
    assert(d.all_layers().len() == net.all_layers().len());
    assert(net_values(d) =~= net_values(net));
}

/// Two chained networks with the same widths and parameters have identical layers: the
/// header and the parameter vector determine the network.
pub proof fn shape_determines_network(x: PolicyNet, y: PolicyNet)
    requires
        is_canonical(x),
        is_canonical(y),
        fits_header(x),
        fits_header(y),
        shape_view(x) == shape_view(y),
    ensures
        x.trunk@.len() == y.trunk@.len(),
        forall|i: int| 0 <= i < x.all_layers().len() ==> {
            &&& (#[trigger] x.all_layers()[i]).inputs == y.all_layers()[i].inputs
            &&& x.all_layers()[i].outputs == y.all_layers()[i].outputs
            &&& x.all_layers()[i].weights@ == y.all_layers()[i].weights@
            &&& x.all_layers()[i].biases@ == y.all_layers()[i].biases@
        },
{
    lemma_view_dims(x);
    lemma_view_dims(y);
    assert(hidden_words(x).len() == x.trunk@.len());
    assert(net_dims(x) == net_dims(y));
    lemma_same_params_same_layers(x.all_layers(), y.all_layers(), net_dims(x));
}

proof fn lemma_same_params_same_layers(xs: Seq<Layer>, ys: Seq<Layer>, dims: Seq<(int, int)>)
    requires
        xs.len() == dims.len(),
        ys.len() == dims.len(),
        forall|i: int| 0 <= i < xs.len() ==> (#[trigger] xs[i]).well_formed()
            && (xs[i].inputs as int, xs[i].outputs as int) == dims[i],
        forall|i: int| 0 <= i < ys.len() ==> (#[trigger] ys[i]).well_formed()
            && (ys[i].inputs as int, ys[i].outputs as int) == dims[i],
        params_of(xs) == params_of(ys),
    ensures
        forall|i: int| 0 <= i < xs.len() ==> {
            &&& (#[trigger] xs[i]).inputs == ys[i].inputs
            &&& xs[i].outputs == ys[i].outputs
            &&& xs[i].weights@ == ys[i].weights@
            &&& xs[i].biases@ == ys[i].biases@
        },
    decreases xs.len(),
{
    if xs.len() > 0 {
        let n = xs.len() - 1;
        lemma_params_len(xs.drop_last(), dims.drop_last());
        lemma_params_len(ys.drop_last(), dims.drop_last());
        let px = params_of(xs.drop_last());
        let py = params_of(ys.drop_last());
        let lx = xs.last();
        let ly = ys.last();
        assert(xs[n] == lx && ys[n] == ly);
        assert(lx.weights@.len() == ly.weights@.len());
        let all = params_of(xs);
        assert(all == px + lx.weights@ + lx.biases@);
        assert(all == py + ly.weights@ + ly.biases@);
        assert(px =~= all.subrange(0, px.len() as int));
        assert(py =~= all.subrange(0, px.len() as int));
        assert(lx.weights@ =~= all.subrange(px.len() as int, (px.len() + lx.weights@.len()) as int));
        assert(ly.weights@ =~= all.subrange(px.len() as int, (px.len() + lx.weights@.len()) as int));
        assert(lx.biases@ =~= all.subrange((px.len() + lx.weights@.len()) as int, all.len() as int));
        assert(ly.biases@ =~= all.subrange((px.len() + lx.weights@.len()) as int, all.len() as int));
        lemma_same_params_same_layers(xs.drop_last(), ys.drop_last(), dims.drop_last());
        assert forall|i: int| 0 <= i < xs.len() implies {
            &&& (#[trigger] xs[i]).inputs == ys[i].inputs
            &&& xs[i].outputs == ys[i].outputs
            &&& xs[i].weights@ == ys[i].weights@
            &&& xs[i].biases@ == ys[i].biases@
        } by {
            if i < n {
                assert(xs.drop_last()[i] == xs[i]);
                assert(ys.drop_last()[i] == ys[i]);
            }
        }
    }
}

/// Two networks with the same widths and parameters commit to the same weights hash, so
/// a file that decodes to a network's shape view preserves every claim made against it.
pub proof fn shape_determines_weights_hash(x: PolicyNet, y: PolicyNet)
    requires
        shape_view(x) == shape_view(y),
    ensures
        weights_hash_spec(x) == weights_hash_spec(y),
{
    assert(hidden_words(x).len() == x.trunk@.len());
    assert(hidden_words(y).len() == y.trunk@.len());
    assert(weights_preimage(x) == weights_preimage(y));
}

/// Big-endian words take four bytes each.
proof fn lemma_words_len(ws: Seq<u32>)
    ensures
        words(ws).len() == 4 * ws.len(),
    decreases ws.len(),
{
    if ws.len() > 0 {
        lemma_words_len(ws.drop_last());
    }
}

/// Equally many words written the same way are the same words.
proof fn lemma_words_injective(a: Seq<u32>, b: Seq<u32>)
    requires
        a.len() == b.len(),
        words(a) == words(b),
    ensures
        a == b,
    decreases a.len(),
{
    if a.len() > 0 {
        lemma_words_len(a.drop_last());
        lemma_words_len(b.drop_last());
        crate::bytes::split_equal_prefix(words(a.drop_last()), be_u32(a.last()), words(b.drop_last()), be_u32(b.last()));
        lemma_words_injective(a.drop_last(), b.drop_last());
        crate::bytes::be_u32_injective(a.last(), b.last());
        assert(a =~= a.drop_last().push(a.last()));
        assert(b =~= b.drop_last().push(b.last()));
    } else {
        assert(a =~= b);
    }
}

/// The shape is part of the commitment: a weights preimage records the state width, the
/// number of hidden layers, the width of each, the action count and every parameter, so
/// two networks that differ in any of them (each count below 2^32) have different
/// preimages; in particular two networks with identical parameter vectors but different
/// layer widths never share one.
pub proof fn weights_preimage_records_the_shape(x: PolicyNet, y: PolicyNet)
    requires
        weights_preimage(x) == weights_preimage(y),
        x.state_dim_spec() < 0x1_0000_0000,
        y.state_dim_spec() < 0x1_0000_0000,
        x.trunk@.len() < 0x1_0000_0000,
        y.trunk@.len() < 0x1_0000_0000,
        forall|i: int| 0 <= i < x.trunk@.len() ==> (#[trigger] x.trunk@[i]).outputs < 0x1_0000_0000,
        forall|i: int| 0 <= i < y.trunk@.len() ==> (#[trigger] y.trunk@[i]).outputs < 0x1_0000_0000,
        x.advantage_head.outputs < 0x1_0000_0000,
        y.advantage_head.outputs < 0x1_0000_0000,
    ensures
        x.state_dim_spec() == y.state_dim_spec(),
        x.trunk@.len() == y.trunk@.len(),
        forall|i: int| 0 <= i < x.trunk@.len() ==> (#[trigger] x.trunk@[i]).outputs == y.trunk@[i].outputs,
        x.advantage_head.outputs == y.advantage_head.outputs,
        x.params_spec() == y.params_spec(),
{
    let (sx, lx, ax) = (x.state_dim_spec() as u32, x.trunk@.len() as u32, x.advantage_head.outputs as u32);
    let (sy, ly, ay) = (y.state_dim_spec() as u32, y.trunk@.len() as u32, y.advantage_head.outputs as u32);
    let (hx, hy) = (words(hidden_words(x)), words(hidden_words(y)));
    let px = encode_fx(x.params_spec());
    let py = encode_fx(y.params_spec());
    let tag = crate::commit::weights_tag();
    assert(weights_preimage(x) =~= tag + (be_u32(sx) + (be_u32(lx) + (hx + (be_u32(ax) + px)))));
    assert(weights_preimage(y) =~= tag + (be_u32(sy) + (be_u32(ly) + (hy + (be_u32(ay) + py)))));
    crate::bytes::split_equal_prefix(
        tag,
        be_u32(sx) + (be_u32(lx) + (hx + (be_u32(ax) + px))),
        tag,
        be_u32(sy) + (be_u32(ly) + (hy + (be_u32(ay) + py))),
    );
    crate::bytes::split_equal_prefix(
        be_u32(sx),
        be_u32(lx) + (hx + (be_u32(ax) + px)),
        be_u32(sy),
        be_u32(ly) + (hy + (be_u32(ay) + py)),
    );
    crate::bytes::split_equal_prefix(be_u32(lx), hx + (be_u32(ax) + px), be_u32(ly), hy + (be_u32(ay) + py));
    crate::bytes::be_u32_injective(sx, sy);
    crate::bytes::be_u32_injective(lx, ly);
    lemma_words_len(hidden_words(x));
    lemma_words_len(hidden_words(y));
    crate::bytes::split_equal_prefix(hx, be_u32(ax) + px, hy, be_u32(ay) + py);
    lemma_words_injective(hidden_words(x), hidden_words(y));
    assert forall|i: int| 0 <= i < x.trunk@.len() implies (#[trigger] x.trunk@[i]).outputs == y.trunk@[i].outputs by {
        assert(hidden_words(x)[i] == hidden_words(y)[i]);
    }
    crate::bytes::split_equal_prefix(be_u32(ax), px, be_u32(ay), py);
    crate::bytes::be_u32_injective(ax, ay);
    lemma_fx_of_encoded(x.params_spec());
    lemma_fx_of_encoded(y.params_spec());
}

/// The widths a successful scan returns are the words it read, in place.
proof fn lemma_parse_hidden_reads(b: Seq<u8>, pos: int, k: nat)
    requires
        parse_hidden(b, pos, k) is Ok,
    ensures
        pos + 4 * k <= b.len() || k == 0,
        forall|j: int| 0 <= j < k ==> #[trigger] parse_hidden(b, pos, k)->Ok_0[j] == rd32(b, pos + 4 * j) && pos + 4 * j
            + 4 <= b.len(),
    decreases k,
{
    lemma_parse_hidden_ok(b, pos, k);
    if k > 0 {
        lemma_parse_hidden_reads(b, pos, (k - 1) as nat);
        lemma_parse_hidden_ok(b, pos, (k - 1) as nat);
        let prev = parse_hidden(b, pos, (k - 1) as nat)->Ok_0;
        let cur = parse_hidden(b, pos, k)->Ok_0;
        assert(cur == prev.push(rd32(b, pos + 4 * (k - 1))));
        assert forall|j: int| 0 <= j < k implies #[trigger] cur[j] == rd32(b, pos + 4 * j) && pos + 4 * j + 4 <= b.len() by {
            if j < k - 1 {
                assert(cur[j] == prev[j]);
            }
        }
    }
}

/// Equal words read at the same place mean equal bytes there.
proof fn same_word(a: Seq<u8>, b: Seq<u8>, p: int)
    requires
        0 <= p,
        p + 4 <= a.len(),
        p + 4 <= b.len(),
        rd32(a, p) == rd32(b, p),
    ensures
        forall|j: int| p <= j < p + 4 ==> a[j] == b[j],
{
    u32_of_be_injective(a[p], a[p + 1], a[p + 2], a[p + 3], b[p], b[p + 1], b[p + 2], b[p + 3]);
}

/// Where the parameters of a file with these widths start and end.
pub open spec fn params_span(sv: ShapeView) -> (int, int) {
    let p: int = 16 + 4 * (sv.1.len() as int);
    (p, p + 4 * dims_count(layer_dims(sv.0 as int, ints_of(sv.1), sv.2 as int)))
}

/// How a file that decodes to `sv` lays it out, byte by byte.
pub open spec fn laid_out(b: Seq<u8>, sv: ShapeView) -> bool {
    let (p, q) = params_span(sv);
    &&& 16 <= p <= q
    &&& b.len() == q + 4
    &&& b.subrange(0, 4) == magic()
    &&& rd16(b, 4) == VERSION
    &&& rd32(b, 6) == sv.0
    &&& rd16(b, 10) as int == sv.1.len()
    &&& rd32(b, 12) == sv.2
    &&& forall|k: int| 0 <= k < sv.1.len() ==> #[trigger] sv.1[k] == rd32(b, 16 + 4 * k)
    &&& fx_of_bytes(b.subrange(p, q)) == sv.3
    &&& rd32(b, q) == fnv(b.subrange(p, q))
}

/// A file that decodes is laid out as what it decodes to.
proof fn decoded_is_laid_out(b: Seq<u8>)
    requires
        decode_spec(b) is Ok,
    ensures
        laid_out(b, decode_spec(b)->Ok_0),
{
    let layers = rd16(b, 10);
    lemma_parse_hidden_ok(b, 16, layers as nat);
    lemma_parse_hidden_reads(b, 16, layers as nat);
    let h = parse_hidden(b, 16, layers as nat)->Ok_0;
    assert forall|k: int| 0 <= k < h.len() implies #[trigger] h[k] == rd32(b, 16 + 4 * k) by {}
    let d = layer_dims(rd32(b, 6) as int, ints_of(h), rd32(b, 12) as int);
    assert forall|k: int| 0 <= k < d.len() implies (#[trigger] d[k]).0 >= 0 && d[k].1 >= 0 by {
        if k > 0 && k <= h.len() {
            assert(ints_of(h)[k - 1] >= 0);
        }
        if k < h.len() {
            assert(ints_of(h)[k] >= 0);
        }
    }
    lemma_dims_count_monotone(d, 0, d.len() as int);
    assert(d.take(0) =~= Seq::<(int, int)>::empty());
    assert(d.take(d.len() as int) =~= d);
}

/// Two byte strings laid out as the same widths and parameters are the same bytes.
#[verifier::rlimit(40)]
proof fn layout_determines_bytes(a: Seq<u8>, b: Seq<u8>, sv: ShapeView)
    requires
        laid_out(a, sv),
        laid_out(b, sv),
    ensures
        a == b,
{
    let (p, q) = params_span(sv);
    let n = (q - p) / 4;
    assert(q == p + 4 * n);
    let pa = a.subrange(p, q);
    let pb = b.subrange(p, q);
    assert(pa.len() == 4 * n && pb.len() == 4 * n);
    assert forall|j: int| 0 <= j < 4 implies a[j] == b[j] by {
        assert(a[j] == a.subrange(0, 4)[j] && b[j] == b.subrange(0, 4)[j]);
    }
    u16_of_be_injective(a[4], a[5], b[4], b[5]);
    same_word(a, b, 6);
    u16_of_be_injective(a[10], a[11], b[10], b[11]);
    same_word(a, b, 12);
    assert forall|i: int| 16 <= i < p implies #[trigger] a[i] == b[i] by {
        let k = (i - 16) / 4;
        assert(0 <= k < sv.1.len() && 16 + 4 * k <= i < 16 + 4 * k + 4);
        assert(sv.1[k] == rd32(a, 16 + 4 * k));
        assert(sv.1[k] == rd32(b, 16 + 4 * k));
        same_word(a, b, 16 + 4 * k);
    }
    assert forall|i: int| p <= i < q implies #[trigger] a[i] == b[i] by {
        let k = (i - p) / 4;
        assert(0 <= k < n && p + 4 * k <= i < p + 4 * k + 4);
        assert(fx_of_bytes(pa)[k] == fx_of_bytes(pb)[k]);
        let x = rd32(pa, 4 * k);
        let y = rd32(pb, 4 * k);
        assert((x as i32) == (y as i32));
        assert((x as i32) == (y as i32) ==> x == y) by (bit_vector);
        assert(pa[4 * k] == a[p + 4 * k] && pa[4 * k + 1] == a[p + 4 * k + 1]);
        assert(pa[4 * k + 2] == a[p + 4 * k + 2] && pa[4 * k + 3] == a[p + 4 * k + 3]);
        assert(pb[4 * k] == b[p + 4 * k] && pb[4 * k + 1] == b[p + 4 * k + 1]);
        assert(pb[4 * k + 2] == b[p + 4 * k + 2] && pb[4 * k + 3] == b[p + 4 * k + 3]);
        assert(rd32(a, p + 4 * k) == x && rd32(b, p + 4 * k) == y);
        same_word(a, b, p + 4 * k);
    }
    assert(pa =~= pb) by {
        assert forall|i: int| 0 <= i < pa.len() implies pa[i] == pb[i] by {
            assert(a[p + i] == b[p + i]);
        }
    }
    same_word(a, b, q);
    assert forall|i: int| 0 <= i < a.len() implies a[i] == b[i] by {
        if 16 <= i < p {
            assert(a[i] == b[i]);
        } else if p <= i < q {
            assert(a[i] == b[i]);
        }
    }
    assert(a =~= b);
}

/// A network has one file: two byte strings that both decode, to the same widths and
/// parameters, are the same bytes. Refusing trailing bytes is what makes this so, and
/// with it "which file did you run" has one answer.
pub proof fn one_file_per_network(a: Seq<u8>, b: Seq<u8>)
    requires
        decode_spec(a) is Ok,
        decode_spec(a) == decode_spec(b),
    ensures
        a == b,
{
    decoded_is_laid_out(a);
    decoded_is_laid_out(b);
    layout_determines_bytes(a, b, decode_spec(a)->Ok_0);
}

} // verus!
