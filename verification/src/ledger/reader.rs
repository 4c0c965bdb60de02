//! Reading little-endian binary formats from a byte string.

use crate::text::{decimal, push_decimal};
use crate::wire::{
    law_le_read_write, le, le_value, lemma_le_len, lemma_le_value_bound, lemma_pow256_values,
    push_le, read_le,
};
use vstd::prelude::*;

verus! {

/// What is being read: it decides the wording of the errors.
#[derive(Clone, Copy, PartialEq, Eq, Structural)]
pub enum Format {
    Tx,
    Pstx,
}

/// What a read gives: the value and the position behind it, or an error.
pub type Read<T> = Result<(T, nat), Seq<char>>;

pub open spec fn overflow_text(f: Format) -> Seq<char> {
    match f {
        Format::Tx => "tx reader overflow"@,
        Format::Pstx => "cursor overflow"@,
    }
}

pub open spec fn underflow_text(f: Format, pos: nat, n: nat, have: nat) -> Seq<char> {
    let start = match f {
        Format::Tx => "tx truncated at pos "@,
        Format::Pstx => "buffer underflow at pos "@,
    };
    start + decimal(pos) + ": need "@ + decimal(n) + ", have "@ + decimal(have)
}

/// The next `n` bytes.
pub open spec fn need(f: Format, s: Seq<u8>, pos: nat, n: nat) -> Read<Seq<u8>> {
    if pos + n > usize::MAX {
        Err(overflow_text(f))
    } else if pos + n > s.len() {
        Err(underflow_text(f, pos, n, (s.len() - pos) as nat))
    } else {
        Ok((s.subrange(pos as int, (pos + n) as int), pos + n))
    }
}

/// The next `n` bytes as a number, least significant byte first.
pub open spec fn number_at(f: Format, s: Seq<u8>, pos: nat, n: nat) -> Read<nat> {
    match need(f, s, pos, n) {
        Ok((b, p)) => Ok((le_value(b), p)),
        Err(e) => Err(e),
    }
}

/// A number in one, three, five or nine bytes, by its first byte.
pub open spec fn varint_at(f: Format, s: Seq<u8>, pos: nat) -> Read<nat> {
    match number_at(f, s, pos, 1) {
        Err(e) => Err(e),
        Ok((first, p)) => if first == 0xff {
            number_at(f, s, p, 8)
        } else if first == 0xfe {
            number_at(f, s, p, 4)
        } else if first == 0xfd {
            number_at(f, s, p, 2)
        } else {
            Ok((first, p))
        },
    }
}

/// `n` reads in a row, with the first error if there is one.
pub open spec fn many<T>(step: spec_fn(nat) -> Read<T>, pos: nat, n: nat) -> Read<Seq<T>>
    decreases n,
{
    if n == 0 {
        Ok((Seq::empty(), pos))
    } else {
        match many(step, pos, (n - 1) as nat) {
            Err(e) => Err(e),
            Ok((v, p)) => match step(p) {
                Err(e) => Err(e),
                Ok((x, q)) => Ok((v.push(x), q)),
            },
        }
    }
}

/// `n` in one, three, five or nine bytes, as few as hold it.
pub open spec fn varint(n: nat) -> Seq<u8> {
    if n < 0xfd {
        le(n, 1)
    } else if n <= 0xffff {
        seq![0xfdu8] + le(n, 2)
    } else if n <= 0xffff_ffff {
        seq![0xfeu8] + le(n, 4)
    } else {
        seq![0xffu8] + le(n, 8)
    }
}

pub proof fn lemma_varint_len(n: nat)
    ensures
        1 <= varint(n).len() <= 9,
{
    lemma_le_len(n, 1);
    lemma_le_len(n, 2);
    lemma_le_len(n, 4);
    lemma_le_len(n, 8);
}

pub proof fn lemma_many_error<T>(step: spec_fn(nat) -> Read<T>, pos: nat, i: nat, n: nat)
    requires
        i <= n,
        many(step, pos, i) is Err,
    ensures
        many(step, pos, n) == many(step, pos, i),
    decreases n,
{
    if i < n {
        lemma_many_error(step, pos, i, (n - 1) as nat);
    }
}

pub proof fn lemma_many_len<T>(step: spec_fn(nat) -> Read<T>, pos: nat, n: nat)
    ensures
        many(step, pos, n) matches Ok((v, _)) ==> v.len() == n,
    decreases n,
{
    if n > 0 {
        lemma_many_len(step, pos, (n - 1) as nat);
    }
}

/// A number that stands at `pos` is read from there.
pub proof fn lemma_number_at(f: Format, s: Seq<u8>, pos: nat, x: nat, n: nat)
    requires
        x < crate::wire::pow256(n),
        pos + n <= s.len() <= usize::MAX,
        s.subrange(pos as int, (pos + n) as int) == le(x, n),
    ensures
        number_at(f, s, pos, n) == Ok::<(nat, nat), Seq<char>>((x, pos + n)),
{
    law_le_read_write(x, n);
}

/// What `varint` writes at `pos` is read back from there.
pub proof fn law_varint_reads_back(f: Format, before: Seq<u8>, x: u64, after: Seq<u8>)
    requires
        before.len() + varint(x as nat).len() + after.len() <= usize::MAX,
    ensures
        varint_at(f, before + varint(x as nat) + after, before.len()) == Ok::<
            (nat, nat),
            Seq<char>,
        >((x as nat, before.len() + varint(x as nat).len())),
{
    let n = x as nat;
    let s = before + varint(n) + after;
    let pos = before.len();
    lemma_pow256_values();
    lemma_le_len(n, 1);
    lemma_le_len(n, 2);
    lemma_le_len(n, 4);
    lemma_le_len(n, 8);
    let first = varint(n)[0];
    reveal_with_fuel(le, 2);
    reveal_with_fuel(le_value, 2);
    let one = s.subrange(pos as int, (pos + 1) as int);
    assert(one =~= seq![first]);
    assert(one.drop_first() =~= Seq::empty());
    assert(le_value(one) == first as nat);
    if n < 0xfd {
        assert(le(n, 1)[0] == n as u8);
    } else if n <= 0xffff {
        assert(s.subrange((pos + 1) as int, (pos + 3) as int) =~= le(n, 2));
        lemma_number_at(f, s, pos + 1, n, 2);
    } else if n <= 0xffff_ffff {
        assert(s.subrange((pos + 1) as int, (pos + 5) as int) =~= le(n, 4));
        lemma_number_at(f, s, pos + 1, n, 4);
    } else {
        assert(s.subrange((pos + 1) as int, (pos + 9) as int) =~= le(n, 8));
        lemma_number_at(f, s, pos + 1, n, 8);
    }
}

/// The encodings of `xs`, one after the other.
pub open spec fn all_encoded<T>(encode: spec_fn(T) -> Seq<u8>, xs: Seq<T>) -> Seq<u8>
    decreases xs.len(),
{
    if xs.len() == 0 {
        Seq::empty()
    } else {
        all_encoded(encode, xs.drop_last()) + encode(xs.last())
    }
}

/// The first encoding stands in front of the others.
pub proof fn lemma_all_encoded_front<T>(encode: spec_fn(T) -> Seq<u8>, xs: Seq<T>)
    requires
        xs.len() > 0,
    ensures
        all_encoded(encode, xs) == encode(xs[0]) + all_encoded(encode, xs.drop_first()),
    decreases xs.len(),
{
    if xs.len() == 1 {
        assert(xs.drop_last() =~= Seq::empty());
        assert(xs.drop_first() =~= Seq::empty());
        assert(all_encoded(encode, xs) =~= encode(xs[0]) + all_encoded(encode, xs.drop_first()));
    } else {
        let front = xs.drop_last();
        let tail = xs.drop_first();
        lemma_all_encoded_front(encode, front);
        assert(front.drop_first() =~= tail.drop_last());
        assert(tail.last() == xs.last());
        assert(encode(xs[0]) + all_encoded(encode, tail.drop_last()) + encode(xs.last())
            =~= encode(xs[0]) + (all_encoded(encode, tail.drop_last()) + encode(xs.last())));
    }
}

/// Where one read gives back what was encoded, reads in a row give back all
/// that was encoded in a row.
pub proof fn lemma_many_reads_back<T, U>(
    step: spec_fn(Seq<u8>) -> spec_fn(nat) -> Read<U>,
    encode: spec_fn(T) -> Seq<u8>,
    value: spec_fn(T) -> U,
    before: Seq<u8>,
    xs: Seq<T>,
    after: Seq<u8>,
)
    requires
        forall|b: Seq<u8>, i: int, a: Seq<u8>|
            #![trigger step(b + encode(xs[i]) + a)]
            0 <= i < xs.len() && (b + encode(xs[i]) + a).len() <= usize::MAX ==> step(
                b + encode(xs[i]) + a,
            )(b.len()) == Ok::<(U, nat), Seq<char>>(
                (value(xs[i]), b.len() + encode(xs[i]).len()),
            ),
        (before + all_encoded(encode, xs) + after).len() <= usize::MAX,
    ensures
        many(step(before + all_encoded(encode, xs) + after), before.len(), xs.len()) == Ok::<
            (Seq<U>, nat),
            Seq<char>,
        >((xs.map_values(value), before.len() + all_encoded(encode, xs).len())),
    decreases xs.len(),
{
    let s = before + all_encoded(encode, xs) + after;
    if xs.len() > 0 {
        let front = xs.drop_last();
        let head = before + all_encoded(encode, front);
        let last = xs[xs.len() - 1];
        assert(s =~= before + all_encoded(encode, front) + (encode(last) + after));
        assert(s =~= head + encode(last) + after);
        assert forall|b: Seq<u8>, i: int, a: Seq<u8>|
            #![trigger step(b + encode(front[i]) + a)]
            0 <= i < front.len() && (b + encode(front[i]) + a).len() <= usize::MAX implies step(
            b + encode(front[i]) + a,
        )(b.len()) == Ok::<(U, nat), Seq<char>>(
            (value(front[i]), b.len() + encode(front[i]).len()),
        ) by {
            assert(front[i] == xs[i]);
            assert(step(b + encode(xs[i]) + a)(b.len()) == Ok::<(U, nat), Seq<char>>(
                (value(xs[i]), b.len() + encode(xs[i]).len()),
            ));
        }
        lemma_many_reads_back(step, encode, value, before, front, encode(last) + after);
        assert(step(head + encode(last) + after)(head.len()) == Ok::<(U, nat), Seq<char>>(
            (value(last), head.len() + encode(last).len()),
        ));
        assert(xs.map_values(value) =~= front.map_values(value).push(value(last)));
    } else {
        assert(xs.map_values(value) =~= Seq::empty());
    }
}

// ── What a read depends on ──

/// Whether two byte strings have the same first `e` bytes, as far as both have
/// them.
pub open spec fn agree(s: Seq<u8>, t: Seq<u8>, e: nat) -> bool {
    &&& e <= s.len()
    &&& forall|i: int| 0 <= i < e && i < t.len() ==> #[trigger] s[i] == t[i]
}

/// How a read at `pos` of one byte string, `a`, carries over to another of
/// `len` bytes, `b`, where the two have the same first `e` bytes: it moves
/// forward, and where it ended within those `e` bytes, the other read is the
/// same if the bytes are all there, and fails if they are not.
pub open spec fn carries_over<T>(a: Read<T>, b: Read<T>, pos: nat, e: nat, len: nat) -> bool {
    a matches Ok((_, p)) ==> pos <= p && (p <= e && pos <= len ==> if p <= len {
        b == a
    } else {
        b is Err
    })
}

pub proof fn lemma_need_carries_over(f: Format, s: Seq<u8>, t: Seq<u8>, e: nat, pos: nat, n: nat)
    requires
        agree(s, t, e),
    ensures
        carries_over(need(f, s, pos, n), need(f, t, pos, n), pos, e, t.len()),
{
    if need(f, s, pos, n) is Ok && pos + n <= e && pos + n <= t.len() {
        assert(s.subrange(pos as int, (pos + n) as int) =~= t.subrange(
            pos as int,
            (pos + n) as int,
        ));
    }
}

pub proof fn lemma_number_carries_over(f: Format, s: Seq<u8>, t: Seq<u8>, e: nat, pos: nat, n: nat)
    requires
        agree(s, t, e),
    ensures
        carries_over(number_at(f, s, pos, n), number_at(f, t, pos, n), pos, e, t.len()),
{
    lemma_need_carries_over(f, s, t, e, pos, n);
}

pub proof fn lemma_varint_carries_over(f: Format, s: Seq<u8>, t: Seq<u8>, e: nat, pos: nat)
    requires
        agree(s, t, e),
    ensures
        carries_over(varint_at(f, s, pos), varint_at(f, t, pos), pos, e, t.len()),
{
    lemma_number_carries_over(f, s, t, e, pos, 1);
    lemma_number_carries_over(f, s, t, e, pos + 1, 2);
    lemma_number_carries_over(f, s, t, e, pos + 1, 4);
    lemma_number_carries_over(f, s, t, e, pos + 1, 8);
}

pub proof fn lemma_many_carries_over<T>(
    a: spec_fn(nat) -> Read<T>,
    b: spec_fn(nat) -> Read<T>,
    pos: nat,
    e: nat,
    len: nat,
    n: nat,
)
    requires
        forall|p: nat| carries_over(#[trigger] a(p), b(p), p, e, len),
    ensures
        carries_over(many(a, pos, n), many(b, pos, n), pos, e, len),
    decreases n,
{
    if n > 0 {
        lemma_many_carries_over(a, b, pos, e, len, (n - 1) as nat);
        if let Ok((_, p)) = many(a, pos, (n - 1) as nat) {
            assert(carries_over(a(p), b(p), p, e, len));
        }
    }
}

/// A position in a byte string.
pub struct Reader<'a> {
    pub format: Format,
    pub data: &'a [u8],
    pub pos: usize,
}

impl<'a> Reader<'a> {
    pub open spec fn wf(&self) -> bool {
        self.pos <= self.data@.len()
    }

    /// How a read of one piece changes the reader: it stays on the same bytes,
    /// moves behind what it read, and does not move if it failed.
    pub open spec fn stepped<T>(self, before: Self, read: Read<T>) -> bool {
        self.moved(before, read) && (read is Err ==> self.pos == before.pos)
    }

    /// How a read of several pieces changes the reader: it stays on the same
    /// bytes and moves behind what it read. If it failed, it stands behind the
    /// last piece that it read.
    pub open spec fn moved<T>(self, before: Self, read: Read<T>) -> bool {
        &&& self.format == before.format
        &&& self.data == before.data
        &&& self.wf()
        &&& match read {
            Ok((_, p)) => self.pos == p,
            Err(_) => true,
        }
    }

    pub fn new(format: Format, data: &'a [u8], pos: usize) -> (r: Self)
        requires
            pos <= data@.len(),
        ensures
            r.format == format,
            r.data == data,
            r.pos == pos,
            r.wf(),
    {
        Reader { format, data, pos }
    }

    pub fn need(&mut self, n: usize) -> (r: Result<&'a [u8], String>)
        requires
            old(self).wf(),
        ensures
            final(self).stepped(
                *old(self),
                need(old(self).format, old(self).data@, old(self).pos as nat, n as nat),
            ),
            match need(old(self).format, old(self).data@, old(self).pos as nat, n as nat) {
                Ok((b, _)) => r matches Ok(v) && v@ == b,
                Err(e) => r matches Err(t) && t@ == e,
            },
    {
        let end: usize = match self.pos.checked_add(n) {
            Some(e) => e,
            None => {
                return Err(
                    match self.format {
                        Format::Tx => "tx reader overflow".to_owned(),
                        Format::Pstx => "cursor overflow".to_owned(),
                    },
                );
            },
        };
        if end > self.data.len() {
            let mut text = match self.format {
                Format::Tx => "tx truncated at pos ".to_owned(),
                Format::Pstx => "buffer underflow at pos ".to_owned(),
            };
            push_decimal(&mut text, self.pos as u64);
            text.append(": need ");
            push_decimal(&mut text, n as u64);
            text.append(", have ");
            push_decimal(&mut text, (self.data.len() - self.pos) as u64);
            return Err(text);
        }
        let s = vstd::slice::slice_subrange(self.data, self.pos, end);
        self.pos = end;
        Ok(s)
    }

    /// The next `n` bytes as a number.
    pub fn read_number(&mut self, n: usize) -> (r: Result<u64, String>)
        requires
            old(self).wf(),
            n <= 8,
        ensures
            final(self).stepped(
                *old(self),
                number_at(old(self).format, old(self).data@, old(self).pos as nat, n as nat),
            ),
            match number_at(old(self).format, old(self).data@, old(self).pos as nat, n as nat) {
                Ok((x, _)) => r matches Ok(v) && v == x && x < crate::wire::pow256(n as nat),
                Err(e) => r matches Err(t) && t@ == e,
            },
    {
        match self.need(n) {
            Ok(b) => {
                proof {
                    lemma_le_value_bound(b@);
                }
                Ok(read_le(b))
            },
            Err(e) => Err(e),
        }
    }

    pub fn read_u8(&mut self) -> (r: Result<u8, String>)
        requires
            old(self).wf(),
        ensures
            final(self).stepped(
                *old(self),
                number_at(old(self).format, old(self).data@, old(self).pos as nat, 1),
            ),
            match number_at(old(self).format, old(self).data@, old(self).pos as nat, 1) {
                Ok((x, _)) => r matches Ok(v) && v == x,
                Err(e) => r matches Err(t) && t@ == e,
            },
    {
        proof {
            lemma_pow256_values();
        }
        match self.read_number(1) {
            Ok(x) => Ok(x as u8),
            Err(e) => Err(e),
        }
    }

    pub fn read_u16_le(&mut self) -> (r: Result<u16, String>)
        requires
            old(self).wf(),
        ensures
            final(self).stepped(
                *old(self),
                number_at(old(self).format, old(self).data@, old(self).pos as nat, 2),
            ),
            match number_at(old(self).format, old(self).data@, old(self).pos as nat, 2) {
                Ok((x, _)) => r matches Ok(v) && v == x,
                Err(e) => r matches Err(t) && t@ == e,
            },
    {
        proof {
            lemma_pow256_values();
        }
        match self.read_number(2) {
            Ok(x) => Ok(x as u16),
            Err(e) => Err(e),
        }
    }

    pub fn read_u32_le(&mut self) -> (r: Result<u32, String>)
        requires
            old(self).wf(),
        ensures
            final(self).stepped(
                *old(self),
                number_at(old(self).format, old(self).data@, old(self).pos as nat, 4),
            ),
            match number_at(old(self).format, old(self).data@, old(self).pos as nat, 4) {
                Ok((x, _)) => r matches Ok(v) && v == x,
                Err(e) => r matches Err(t) && t@ == e,
            },
    {
        proof {
            lemma_pow256_values();
        }
        match self.read_number(4) {
            Ok(x) => Ok(x as u32),
            Err(e) => Err(e),
        }
    }

    pub fn read_u64_le(&mut self) -> (r: Result<u64, String>)
        requires
            old(self).wf(),
        ensures
            final(self).stepped(
                *old(self),
                number_at(old(self).format, old(self).data@, old(self).pos as nat, 8),
            ),
            match number_at(old(self).format, old(self).data@, old(self).pos as nat, 8) {
                Ok((x, _)) => r matches Ok(v) && v == x,
                Err(e) => r matches Err(t) && t@ == e,
            },
    {
        self.read_number(8)
    }

    /// The next `n` bytes, copied.
    pub fn read_bytes(&mut self, n: usize) -> (r: Result<Vec<u8>, String>)
        requires
            old(self).wf(),
        ensures
            final(self).stepped(
                *old(self),
                need(old(self).format, old(self).data@, old(self).pos as nat, n as nat),
            ),
            match need(old(self).format, old(self).data@, old(self).pos as nat, n as nat) {
                Ok((b, _)) => r matches Ok(v) && v@ == b,
                Err(e) => r matches Err(t) && t@ == e,
            },
    {
        match self.need(n) {
            Ok(b) => Ok(vstd::slice::slice_to_vec(b)),
            Err(e) => Err(e),
        }
    }

    /// The next 32 bytes.
    pub fn read_hash(&mut self) -> (r: Result<[u8; 32], String>)
        requires
            old(self).wf(),
        ensures
            final(self).stepped(
                *old(self),
                need(old(self).format, old(self).data@, old(self).pos as nat, 32),
            ),
            match need(old(self).format, old(self).data@, old(self).pos as nat, 32) {
                Ok((b, _)) => r matches Ok(v) && v@ == b,
                Err(e) => r matches Err(t) && t@ == e,
            },
    {
        match self.need(32) {
            Ok(b) => {
                let mut a: [u8; 32] = [0u8;32];
                let mut i: usize = 0;
                while i < 32
                    invariant
                        i <= 32,
                        b@.len() == 32,
                        forall|k: int| 0 <= k < i ==> a@[k] == b@[k],
                    decreases 32 - i,
                {
                    a[i] = b[i];
                    i = i + 1;
                }
                assert(a@ =~= b@);
                Ok(a)
            },
            Err(e) => Err(e),
        }
    }

    pub fn read_varint(&mut self) -> (r: Result<u64, String>)
        requires
            old(self).wf(),
        ensures
            final(self).moved(
                *old(self),
                varint_at(old(self).format, old(self).data@, old(self).pos as nat),
            ),
            r is Err ==> final(self).pos == match number_at(
                old(self).format,
                old(self).data@,
                old(self).pos as nat,
                1,
            ) {
                Ok((_, p)) => p,
                Err(_) => old(self).pos as nat,
            },
            match varint_at(old(self).format, old(self).data@, old(self).pos as nat) {
                Ok((x, _)) => r matches Ok(v) && v == x,
                Err(e) => r matches Err(t) && t@ == e,
            },
    {
        match self.read_u8() {
            Err(e) => Err(e),
            Ok(first) => if first == 0xff {
                self.read_number(8)
            } else if first == 0xfe {
                self.read_number(4)
            } else if first == 0xfd {
                self.read_number(2)
            } else {
                Ok(first as u64)
            },
        }
    }
}

/// Appends `n` as a varint.
pub fn write_varint(buf: &mut Vec<u8>, n: u64)
    ensures
        final(buf)@ == old(buf)@ + varint(n as nat),
{
    let ghost start = buf@;
    if n < 0xfd {
        push_le(buf, n, 1);
    } else if n <= 0xffff {
        buf.push(0xfd);
        push_le(buf, n, 2);
    } else if n <= 0xffff_ffff {
        buf.push(0xfe);
        push_le(buf, n, 4);
    } else {
        buf.push(0xff);
        push_le(buf, n, 8);
    }
    assert(buf@ =~= start + varint(n as nat));
}

/// Bytes can be read exactly if they are there, and they are those that come
/// next; numbers have their lowest byte first.
pub proof fn law_reading(f: Format, s: Seq<u8>, pos: nat, n: nat)
    requires
        pos <= s.len() <= usize::MAX,
    ensures
        need(f, s, pos, n) is Ok <==> pos + n <= s.len(),
        need(f, s, pos, n) matches Ok((b, p)) ==> b == s.subrange(pos as int, (pos + n) as int) && p == pos
            + n,
        number_at(f, s, pos, n) is Ok <==> pos + n <= s.len(),
        number_at(f, s, pos, n) matches Ok((v, p)) ==> v == le_value(
            s.subrange(pos as int, (pos + n) as int),
        ) && p == pos + n,
{
}

/// The forms of a number of variable length: below 253 in one byte by itself,
/// else behind 253 in two bytes, behind 254 in four and behind 255 in eight.
pub proof fn law_varint_forms(f: Format, first: u8, rest: Seq<u8>)
    requires
        rest.len() >= 8,
        rest.len() < usize::MAX,
    ensures
        first < 253 ==> varint_at(f, seq![first] + rest, 0) == Ok::<(nat, nat), Seq<char>>(
            (first as nat, 1),
        ),
        first == 253 ==> varint_at(f, seq![first] + rest, 0) == Ok::<(nat, nat), Seq<char>>(
            (le_value(rest.take(2)), 3),
        ),
        first == 254 ==> varint_at(f, seq![first] + rest, 0) == Ok::<(nat, nat), Seq<char>>(
            (le_value(rest.take(4)), 5),
        ),
        first == 255 ==> varint_at(f, seq![first] + rest, 0) == Ok::<(nat, nat), Seq<char>>(
            (le_value(rest.take(8)), 9),
        ),
{
    let s = seq![first] + rest;
    reveal_with_fuel(le_value, 2);
    let one = s.subrange(0, 1);
    assert(one =~= seq![first]);
    assert(one.drop_first() =~= Seq::empty());
    assert(s.subrange(1, 3) =~= rest.take(2));
    assert(s.subrange(1, 5) =~= rest.take(4));
    assert(s.subrange(1, 9) =~= rest.take(8));
}

} // verus!
