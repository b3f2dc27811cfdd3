//! The opaque state store shared between suite levels.
//!
//! A store is a single byte buffer holding at most one encoded value at a
//! time. Values come from a small tagged union, and the encoding is checked
//! byte for byte on the way out: asking for a value of the wrong shape
//! yields a typed error, never a corrupted value.

use vstd::prelude::*;
use crate::error::Error;

verus! {

/// The concrete shapes a state value may take.
pub enum StateValue {
    Bool(bool),
    Uint(u64),
    Bytes(Vec<u8>),
}

/// The little-endian byte string of `x`, `k` bytes long.
pub open spec fn le_bytes(x: nat, k: nat) -> Seq<u8>
    decreases k,
{
    if k == 0 {
        Seq::empty()
    } else {
        seq![(x % 256) as u8] + le_bytes(x / 256, (k - 1) as nat)
    }
}

/// The value a little-endian byte string denotes.
pub open spec fn le_val(s: Seq<u8>) -> nat
    decreases s.len(),
{
    if s.len() == 0 {
        0
    } else {
        (s[0] + 256 * le_val(s.drop_first())) as nat
    }
}

pub open spec fn pow256(k: nat) -> nat
    decreases k,
{
    if k == 0 {
        1
    } else {
        256 * pow256((k - 1) as nat)
    }
}

pub proof fn lemma_le_bytes_len(x: nat, k: nat)
    ensures
        le_bytes(x, k).len() == k,
    decreases k,
{
    if k > 0 {
        lemma_le_bytes_len(x / 256, (k - 1) as nat);
    }
}

pub proof fn lemma_le_val_bound(s: Seq<u8>)
    ensures
        le_val(s) < pow256(s.len()),
    decreases s.len(),
{
    if s.len() > 0 {
        lemma_le_val_bound(s.drop_first());
    }
}

pub proof fn lemma_le_roundtrip(x: nat, k: nat)
    requires
        x < pow256(k),
    ensures
        le_val(le_bytes(x, k)) == x,
    decreases k,
{
    if k > 0 {
        lemma_le_bytes_len(x / 256, (k - 1) as nat);
        assert(le_bytes(x, k).drop_first() =~= le_bytes(x / 256, (k - 1) as nat));
        lemma_le_roundtrip(x / 256, (k - 1) as nat);
    }
}

/// The byte string a state value is stored as: a tag byte, then the payload.
pub open spec fn encoding_of(v: StateValue) -> Seq<u8> {
    match v {
        StateValue::Bool(b) => seq![1u8, (if b { 1u8 } else { 0u8 })],
        StateValue::Uint(n) => seq![2u8] + le_bytes(n as nat, 8),
        StateValue::Bytes(bs) => seq![3u8] + bs@,
    }
}

/// Whether a buffer holds the encoding of some value.
pub open spec fn valid_encoding(s: Seq<u8>) -> bool {
    ||| (s.len() == 2 && s[0] == 1 && (s[1] == 0 || s[1] == 1))
    ||| (s.len() == 9 && s[0] == 2)
    ||| (s.len() >= 1 && s[0] == 3)
}

/// Equality of the mathematical content of two state values.
pub open spec fn same_value(a: StateValue, b: StateValue) -> bool {
    match (a, b) {
        (StateValue::Bool(x), StateValue::Bool(y)) => x == y,
        (StateValue::Uint(x), StateValue::Uint(y)) => x == y,
        (StateValue::Bytes(x), StateValue::Bytes(y)) => x@ == y@,
        _ => false,
    }
}

/// An encoding is always recognized, and pins its value's content down.
pub proof fn lemma_encoding_faithful(v: StateValue, w: StateValue)
    ensures
        valid_encoding(encoding_of(v)),
        encoding_of(v) == encoding_of(w) ==> same_value(v, w),
{
    match v {
        StateValue::Bool(b) => {},
        StateValue::Uint(n) => {
            lemma_le_bytes_len(n as nat, 8);
            if encoding_of(v) == encoding_of(w) {
                match w {
                    StateValue::Uint(m) => {
                        lemma_pow256_8();
                        assert(le_bytes(n as nat, 8) =~= encoding_of(v).drop_first());
                        assert(le_bytes(m as nat, 8) =~= encoding_of(w).drop_first());
                        lemma_le_roundtrip(n as nat, 8);
                        lemma_le_roundtrip(m as nat, 8);
                    },
                    StateValue::Bool(_) => {
                        assert(encoding_of(w)[0] == 1u8);
                    },
                    StateValue::Bytes(bs) => {
                        assert(encoding_of(w)[0] == 3u8);
                    },
                }
            }
        },
        StateValue::Bytes(bs) => {
            if encoding_of(v) == encoding_of(w) {
                match w {
                    StateValue::Bytes(cs) => {
                        assert(bs@ =~= encoding_of(v).drop_first());
                        assert(cs@ =~= encoding_of(w).drop_first());
                    },
                    StateValue::Bool(_) => {
                        assert(encoding_of(w)[0] == 1u8);
                    },
                    StateValue::Uint(_) => {
                        assert(encoding_of(w)[0] == 2u8);
                    },
                }
            }
        },
    }
}

pub proof fn lemma_pow256_8()
    ensures
        pow256(8) == 0x1_0000_0000_0000_0000,
{
    reveal_with_fuel(pow256, 9);
    assert(pow256(8) == 0x1_0000_0000_0000_0000);
}

/// The opaque per-suite payload: one serialized value at a time.
pub struct State {
    state: Vec<u8>,
}

impl View for State {
    type V = Seq<u8>;

    closed spec fn view(&self) -> Seq<u8> {
        self.state@
    }
}

impl State {
    /// An empty store: holds no value, so every read fails.
    pub fn new() -> (r: State)
        ensures
            r@.len() == 0,
    {
        State { state: Vec::new() }
    }

    /// Store `value`, replacing whatever was held before.
    pub fn set(&mut self, value: StateValue) -> (r: Result<(), Error>)
        ensures
            r is Ok,
            final(self)@ == encoding_of(value),
    {
        let mut buf: Vec<u8> = Vec::new();
        match value {
            StateValue::Bool(b) => {
                buf.push(1u8);
                buf.push(if b { 1u8 } else { 0u8 });
                assert(buf@ =~= encoding_of(StateValue::Bool(b)));
            },
            StateValue::Uint(n) => {
                buf.push(2u8);
                let mut x: u64 = n;
                let mut i: usize = 0;
                while i < 8
                    invariant
                        i <= 8,
                        buf@.len() == 1 + i,
                        buf@[0] == 2u8,
                        buf@.subrange(1, buf@.len() as int) + le_bytes(x as nat, (8 - i) as nat)
                            == le_bytes(n as nat, 8),
                    decreases 8 - i,
                {
                    proof {
                        lemma_le_bytes_len(x as nat, (8 - i) as nat);
                    }
                    buf.push((x % 256) as u8);
                    x = x / 256;
                    i = i + 1;
                    proof {
                        assert(buf@.subrange(1, buf@.len() as int) + le_bytes(
                            x as nat,
                            (8 - i) as nat,
                        ) =~= buf@.subrange(1, buf@.len() - 1) + (seq![buf@.last()] + le_bytes(
                            x as nat,
                            (8 - i) as nat,
                        )));
                    }
                }
                proof {
                    lemma_le_bytes_len(n as nat, 8);
                    assert(buf@ =~= seq![2u8] + buf@.subrange(1, buf@.len() as int));
                    assert(buf@.subrange(1, buf@.len() as int) =~= le_bytes(n as nat, 8));
                }
            },
            StateValue::Bytes(bs) => {
                buf.push(3u8);
                let mut j: usize = 0;
                let len = bs.len();
                while j < len
                    invariant
                        j <= len,
                        len == bs@.len(),
                        buf@.len() == 1 + j,
                        buf@[0] == 3u8,
                        buf@.subrange(1, buf@.len() as int) == bs@.subrange(0, j as int),
                    decreases len - j,
                {
                    buf.push(bs[j]);
                    j = j + 1;
                    proof {
                        assert(buf@.subrange(1, buf@.len() as int) =~= bs@.subrange(0, j as int));
                    }
                }
                proof {
                    assert(bs@.subrange(0, len as int) =~= bs@);
                    assert(buf@ =~= seq![3u8] + bs@);
                }
            },
        }
        self.state = buf;
        Ok(())
    }

    /// Read back the stored value; fails when nothing valid is stored.
    pub fn get(&self) -> (r: Result<StateValue, Error>)
        ensures
            r is Ok <==> valid_encoding(self@),
            r matches Ok(v) ==> self@ == encoding_of(v),
            r matches Err(e) ==> e is Deserialize,
    {
        let n = self.state.len();
        if n == 2 && self.state[0] == 1u8 && (self.state[1] == 0u8 || self.state[1] == 1u8) {
            let b = self.state[1] == 1u8;
            proof {
                assert(self@ =~= encoding_of(StateValue::Bool(b)));
            }
            Ok(StateValue::Bool(b))
        } else if n == 9 && self.state[0] == 2u8 {
            let mut acc: u64 = 0;
            let mut j: usize = 8;
            while j > 0
                invariant
                    j <= 8,
                    self@.len() == 9,
                    acc as nat == le_val(self@.subrange(1 + j, 9)),
                    (acc as nat) < pow256((8 - j) as nat),
                decreases j,
            {
                proof {
                    lemma_le_val_bound(self@.subrange(1 + j, 9));
                    assert(pow256((8 - j) as nat) * 256 == pow256((8 - j + 1) as nat)) by {
                        lemma_pow256_step((8 - j) as nat);
                    };
                    lemma_pow256_le((8 - j + 1) as nat, 8);
                    lemma_pow256_8();
                }
                acc = acc * 256 + (self.state[j] as u64);
                j = j - 1;
                proof {
                    assert(self@.subrange(1 + j, 9).drop_first() =~= self@.subrange(1 + j + 1, 9));
                }
            }
            proof {
                assert(self@.subrange(1, 9) =~= self@.drop_first());
                lemma_le_val_bound(self@.drop_first());
                lemma_pow256_8();
                lemma_le_bytes_roundtrip(self@.drop_first());
                assert(self@ =~= seq![2u8] + self@.drop_first());
                assert(self@ =~= encoding_of(StateValue::Uint(acc)));
            }
            Ok(StateValue::Uint(acc))
        } else if n >= 1 && self.state[0] == 3u8 {
            let mut bs: Vec<u8> = Vec::new();
            let mut j: usize = 1;
            while j < n
                invariant
                    1 <= j <= n,
                    n == self@.len(),
                    bs@ == self@.subrange(1, j as int),
                decreases n - j,
            {
                bs.push(self.state[j]);
                j = j + 1;
                proof {
                    assert(bs@ =~= self@.subrange(1, j as int));
                }
            }
            proof {
                assert(self@ =~= seq![3u8] + bs@);
            }
            Ok(StateValue::Bytes(bs))
        } else {
            Err(Error::Deserialize)
        }
    }

    /// Read back a stored boolean; any other content is a typed mismatch.
    pub fn get_bool(&self) -> (r: Result<bool, Error>)
        ensures
            r matches Ok(b) ==> self@ == encoding_of(StateValue::Bool(b)),
            r is Err <==> !(self@.len() == 2 && self@[0] == 1 && (self@[1] == 0 || self@[1] == 1)),
            r matches Err(e) ==> e is Deserialize,
    {
        match self.get() {
            Ok(StateValue::Bool(b)) => Ok(b),
            _ => Err(Error::Deserialize),
        }
    }

    /// Read back a stored unsigned number; any other content is a typed mismatch.
    pub fn get_uint(&self) -> (r: Result<u64, Error>)
        ensures
            r matches Ok(n) ==> self@ == encoding_of(StateValue::Uint(n)),
            r is Err <==> !(self@.len() == 9 && self@[0] == 2),
            r matches Err(e) ==> e is Deserialize,
    {
        match self.get() {
            Ok(StateValue::Uint(n)) => Ok(n),
            _ => Err(Error::Deserialize),
        }
    }

    /// Read back stored raw bytes; any other content is a typed mismatch.
    pub fn get_bytes(&self) -> (r: Result<Vec<u8>, Error>)
        ensures
            r matches Ok(bs) ==> self@ == encoding_of(StateValue::Bytes(bs)),
            r is Err <==> !(self@.len() >= 1 && self@[0] == 3),
            r matches Err(e) ==> e is Deserialize,
    {
        match self.get() {
            Ok(StateValue::Bytes(bs)) => Ok(bs),
            _ => Err(Error::Deserialize),
        }
    }

    /// A copy of the raw buffer.
    pub fn get_raw_state(&self) -> (r: Vec<u8>)
        ensures
            r@ == self@,
    {
        let mut out: Vec<u8> = Vec::new();
        let mut i: usize = 0;
        let n = self.state.len();
        while i < n
            invariant
                i <= n,
                n == self@.len(),
                out@ == self@.subrange(0, i as int),
            decreases n - i,
        {
            out.push(self.state[i]);
            i = i + 1;
            proof {
                assert(out@ =~= self@.subrange(0, i as int));
            }
        }
        proof {
            assert(out@ =~= self@);
        }
        out
    }

    /// Replace the raw buffer wholesale.
    pub fn set_raw_state(&mut self, vec: Vec<u8>)
        ensures
            final(self)@ == vec@,
    {
        self.state = vec;
    }
}

proof fn lemma_pow256_step(k: nat)
    ensures
        pow256(k) * 256 == pow256(k + 1),
{
    assert(pow256(k + 1) == 256 * pow256(k));
}

proof fn lemma_pow256_le(a: nat, b: nat)
    requires
        a <= b,
    ensures
        pow256(a) <= pow256(b),
    decreases b,
{
    if a < b {
        lemma_pow256_le(a, (b - 1) as nat);
        assert(pow256(b) == 256 * pow256((b - 1) as nat));
    }
}

/// A byte string is the little-endian encoding of its own value.
proof fn lemma_le_bytes_roundtrip(s: Seq<u8>)
    ensures
        le_bytes(le_val(s), s.len()) == s,
    decreases s.len(),
{
    if s.len() > 0 {
        lemma_le_bytes_roundtrip(s.drop_first());
        assert(((s[0] + 256 * le_val(s.drop_first())) as nat) % 256 == s[0]) by (nonlinear_arith)
            requires 0 <= s[0] < 256;
        assert(((s[0] + 256 * le_val(s.drop_first())) as nat) / 256 == le_val(s.drop_first()))
            by (nonlinear_arith)
            requires 0 <= s[0] < 256;
        assert(le_bytes(le_val(s), s.len()) =~= s);
    }
}

} // verus!
