//! The byte source that the readers take, its lines, and the UTF-8 facts
//! that the text formats rest on.

use vstd::prelude::*;
use vstd::string::*;
use vstd::utf8::*;

verus! {

broadcast use vstd::utf8::group_utf8_lib;

/// Bytes still to be read, with a read position that only moves forward.
pub struct InputBuffer {
    data: Vec<u8>,
    pos: usize,
}

impl InputBuffer {
    #[verifier::type_invariant]
    spec fn position_in_bounds(self) -> bool {
        self.pos <= self.data@.len()
    }

    /// The bytes not read yet.
    pub closed spec fn unread(self) -> Seq<u8> {
        self.data@.subrange(self.pos as int, self.data@.len() as int)
    }

    /// A source that yields `data`.
    pub fn new(data: Vec<u8>) -> (r: Self)
        ensures
            r@ == data@,
    {
        InputBuffer { data, pos: 0 }
    }

    /// A source that yields the UTF-8 bytes of `text`.
    pub fn from_string(text: String) -> (r: Self)
        ensures
            r@ == encode_utf8(text@),
    {
        let data = text.as_str().as_bytes_vec();
        InputBuffer { data, pos: 0 }
    }

    /// How many bytes are left.
    pub fn remaining(&self) -> (r: usize)
        ensures
            r == self@.len(),
    {
        proof {
            use_type_invariant(self);
        }
        self.data.len() - self.pos
    }

    /// Takes the next `n` bytes where there are that many; otherwise takes
    /// what is left and gives nothing, as `read_exact` on a cursor does.
    pub fn read_exact(&mut self, n: usize) -> (r: Option<Vec<u8>>)
        ensures
            old(self)@.len() >= n ==> (r matches Some(v) && v@ == old(self)@.take(n as int)
                && final(self)@ == old(self)@.skip(n as int)),
            old(self)@.len() < n ==> r is None && final(self)@ == Seq::<u8>::empty(),
    {
        proof {
            use_type_invariant(&*self);
        }
        let len = self.data.len();
        if len - self.pos < n {
            self.pos = len;
            proof {
                assert(self@ =~= Seq::<u8>::empty());
            }
            return None;
        }
        let mut v: Vec<u8> = Vec::new();
        let start = self.pos;
        let mut i = start;
        while i < start + n
            invariant
                start <= i <= start + n <= len == self.data@.len(),
                v@ == self.data@.subrange(start as int, i as int),
            decreases start + n - i,
        {
            v.push(self.data[i]);
            proof {
                assert(v@ =~= self.data@.subrange(start as int, i + 1));
            }
            i = i + 1;
        }
        self.pos = start + n;
        proof {
            assert(v@ =~= old(self)@.take(n as int));
            assert(self@ =~= old(self)@.skip(n as int));
        }
        Some(v)
    }

    /// Takes the next line, as `BufRead::lines` yields it: the bytes up to the
    /// next `\n`, without it and without a `\r` right before it.
    pub fn next_line(&mut self) -> (r: Option<Vec<u8>>)
        ensures
            old(self)@.len() == 0 ==> r is None && final(self)@ == old(self)@,
            old(self)@.len() > 0 ==> (r matches Some(l) && l@ == line_of(old(self)@)
                && final(self)@ == after_line(old(self)@)),
    {
        proof {
            use_type_invariant(&*self);
        }
        let len = self.data.len();
        let start = self.pos;
        if start == len {
            return None;
        }
        let ghost s = old(self)@;
        let mut k = start;
        while k < len && self.data[k] != 10u8
            invariant
                start <= k <= len == self.data@.len(),
                s == self.data@.subrange(start as int, len as int),
                forall|j: int| start <= j < k ==> self.data@[j] != 10u8,
            decreases len - k,
        {
            k = k + 1;
        }
        proof {
            lemma_newline_index(s, k - start);
        }
        let mut end = k;
        if k < len && k > start && self.data[k - 1] == 13u8 {
            end = k - 1;
        }
        let mut v: Vec<u8> = Vec::new();
        let mut i = start;
        while i < end
            invariant
                start <= i <= end <= k <= len == self.data@.len(),
                v@ == self.data@.subrange(start as int, i as int),
            decreases end - i,
        {
            v.push(self.data[i]);
            proof {
                assert(v@ =~= self.data@.subrange(start as int, i + 1));
            }
            i = i + 1;
        }
        if k < len {
            self.pos = k + 1;
        } else {
            self.pos = len;
        }
        proof {
            let l = s.take(k - start);
            if k < len && k > start && s[k - start - 1] == 13u8 {
                assert(v@ =~= l.drop_last());
            } else {
                assert(v@ =~= l);
            }
            if k < len {
                assert(self@ =~= s.skip(k - start + 1));
            } else {
                assert(self@ =~= Seq::<u8>::empty());
            }
        }
        Some(v)
    }
}

impl View for InputBuffer {
    type V = Seq<u8>;

    closed spec fn view(&self) -> Seq<u8> {
        self.unread()
    }
}

/// The index of the first `\n` byte in `s`, or `s.len()` where there is none.
pub open spec fn newline_index(s: Seq<u8>) -> int
    decreases s.len(),
{
    if s.len() == 0 {
        0
    } else if s[0] == 10u8 {
        0
    } else {
        1 + newline_index(s.drop_first())
    }
}

/// The first line of `s`, without its `\n` and a `\r` right before it.
pub open spec fn line_of(s: Seq<u8>) -> Seq<u8> {
    let i = newline_index(s);
    let l = s.take(i);
    if i < s.len() && i > 0 && l.last() == 13u8 {
        l.drop_last()
    } else {
        l
    }
}

/// What follows the first line of `s`.
pub open spec fn after_line(s: Seq<u8>) -> Seq<u8> {
    let i = newline_index(s);
    if i < s.len() {
        s.skip(i + 1)
    } else {
        Seq::empty()
    }
}

pub proof fn lemma_newline_index(s: Seq<u8>, k: int)
    requires
        0 <= k <= s.len(),
        forall|j: int| 0 <= j < k ==> s[j] != 10u8,
        k < s.len() ==> s[k] == 10u8,
    ensures
        newline_index(s) == k,
    decreases k,
{
    if k > 0 {
        lemma_newline_index(s.drop_first(), k - 1);
    }
}

/// What is left after a line is shorter than what there was.
pub proof fn lemma_after_line_shorter(s: Seq<u8>)
    requires
        s.len() > 0,
    ensures
        after_line(s).len() < s.len(),
{
    lemma_newline_index_bounds(s);
}

pub proof fn lemma_newline_index_bounds(s: Seq<u8>)
    ensures
        0 <= newline_index(s) <= s.len(),
    decreases s.len(),
{
    if s.len() > 0 && s[0] != 10u8 {
        lemma_newline_index_bounds(s.drop_first());
    }
}

/// The line of a text that holds no `\n`, followed by `\n`, is that text, and
/// what follows is the rest.
pub proof fn lemma_line_of_terminated(l: Seq<u8>, rest: Seq<u8>)
    requires
        !l.contains(10u8),
        l.len() == 0 || l.last() != 13u8,
    ensures
        line_of(l.push(10u8) + rest) == l,
        after_line(l.push(10u8) + rest) == rest,
{
    let s = l.push(10u8) + rest;
    assert forall|j: int| 0 <= j < l.len() implies s[j] != 10u8 by {
        assert(s[j] == l[j]);
    }
    lemma_newline_index(s, l.len() as int);
    assert(s.take(l.len() as int) =~= l);
    assert(s.skip(l.len() as int + 1) =~= rest);
}

/// `std::str::from_utf8`: the text that `bytes` encode, where they are valid
/// UTF-8, and nothing where they are not.
#[verifier::external_body]
pub(crate) fn str_from_utf8(bytes: &[u8]) -> (r: Option<&str>)
    ensures
        r is Some <==> valid_utf8(bytes@),
        r matches Some(s) ==> s@ == decode_utf8(bytes@),
{
    std::str::from_utf8(bytes).ok()
}

/// Appends `b` to `out`.
pub fn append_bytes(out: &mut Vec<u8>, b: &[u8])
    ensures
        final(out)@ == old(out)@ + b@,
{
    let mut i: usize = 0;
    while i < b.len()
        invariant
            i <= b@.len(),
            out@ == old(out)@ + b@.take(i as int),
        decreases b@.len() - i,
    {
        out.push(b[i]);
        proof {
            assert(b@.take(i + 1) =~= b@.take(i as int).push(b@[i as int]));
        }
        i = i + 1;
    }
    assert(b@.take(b@.len() as int) =~= b@);
}

/// Appends the UTF-8 bytes of `s` to `out`.
pub fn append_str(out: &mut Vec<u8>, s: &str)
    ensures
        final(out)@ == old(out)@ + encode_utf8(s@),
{
    append_bytes(out, s.as_bytes());
}

/// The encoding of two texts one after the other.
pub proof fn lemma_encode_utf8_concat(a: Seq<char>, b: Seq<char>)
    ensures
        encode_utf8(a + b) == encode_utf8(a) + encode_utf8(b),
    decreases a.len(),
{
    if a.len() == 0 {
        assert(a + b =~= b);
    } else {
        lemma_encode_utf8_concat(a.drop_first(), b);
        assert((a + b).drop_first() =~= a.drop_first() + b);
        assert((a + b)[0] == a[0]);
    }
}

/// Of the ASCII bytes, the encoding of a character holds only its own.
pub proof fn lemma_encode_scalar_ascii(c: char, a: char)
    requires
        (a as u32) < 0x80,
        c != a,
    ensures
        !encode_scalar(c as u32).contains((a as u32) as u8),
{
    let v = c as u32;
    let w = a as u32;
    char_u32_cast(c, v);
    char_u32_cast(a, w);
    assert(v != w);
    char_is_scalar(c);
    let e = encode_scalar(v);
    let b = w as u8;
    if has_width_1_encoding(v) {
        assert((v & 0x7F) as u8 != w as u8) by (bit_vector)
            requires
                v <= 0x7f,
                w < 0x80,
                v != w,
        ;
        assert(e =~= seq![leading_byte_width_1(v)]);
    } else {
        assert(forall|x: u8| #![auto] (0x80u8 | x) >= 0x80u8) by (bit_vector);
        assert(forall|x: u8| #![auto] (0xC0u8 | x) >= 0x80u8) by (bit_vector);
        assert(forall|x: u8| #![auto] (0xE0u8 | x) >= 0x80u8) by (bit_vector);
        assert(forall|x: u8| #![auto] (0xF0u8 | x) >= 0x80u8) by (bit_vector);
        assert forall|i: int| 0 <= i < e.len() implies e[i] >= 0x80u8 by {}
        assert(b < 0x80u8);
    }
}

/// The encoding of one character.
pub proof fn lemma_encode_utf8_single(c: char)
    ensures
        encode_utf8(seq![c]) == encode_scalar(c as u32),
{
    let s = seq![c];
    assert(s.drop_first() =~= Seq::<char>::empty());
    assert(encode_utf8(s.drop_first()) =~= Seq::<u8>::empty());
    assert(encode_utf8(s) == encode_scalar(s[0] as u32) + encode_utf8(s.drop_first()));
    assert(encode_scalar(c as u32) + Seq::<u8>::empty() =~= encode_scalar(c as u32));
}

/// The encoding of a text without some ASCII character holds no byte of it.
pub proof fn lemma_encode_utf8_without_ascii(s: Seq<char>, c: char)
    requires
        (c as u32) < 0x80,
        !s.contains(c),
    ensures
        !encode_utf8(s).contains((c as u32) as u8),
    decreases s.len(),
{
    if s.len() > 0 {
        assert(s[0] != c);
        lemma_encode_scalar_ascii(s[0], c);
        assert(!s.drop_first().contains(c)) by {
            if s.drop_first().contains(c) {
                let j = choose|j: int| 0 <= j < s.drop_first().len() && s.drop_first()[j] == c;
                assert(s[j + 1] == c);
            }
        }
        lemma_encode_utf8_without_ascii(s.drop_first(), c);
        let a = encode_scalar(s[0] as u32);
        let b = encode_utf8(s.drop_first());
        assert(encode_utf8(s) == a + b);
        let x = (c as u32) as u8;
        if (a + b).contains(x) {
            let j = choose|j: int| 0 <= j < (a + b).len() && (a + b)[j] == x;
            if j < a.len() {
                assert(a[j] == x);
            } else {
                assert(b[j - a.len()] == x);
            }
        }
    }
}

/// The encoding of a text whose last character is not `\r` does not end in
/// the byte of `\r`.
pub proof fn lemma_encode_utf8_last(s: Seq<char>)
    requires
        s.len() > 0,
        s.last() != '\r',
    ensures
        encode_utf8(s).len() > 0,
        encode_utf8(s).last() != 13u8,
{
    lemma_encode_utf8_concat(s.drop_last(), seq![s.last()]);
    assert(s.drop_last() + seq![s.last()] =~= s);
    let e = encode_scalar(s.last() as u32);
    lemma_encode_utf8_single(s.last());
    lemma_encode_scalar_ascii(s.last(), '\r');
    char_is_scalar(s.last());
    assert(e.len() > 0);
    assert(e.contains(e.last()));
    assert(('\r' as u32) as u8 == 13u8);
}

pub proof fn lemma_newline_index_facts(s: Seq<u8>)
    ensures
        0 <= newline_index(s) <= s.len(),
        forall|j: int| 0 <= j < newline_index(s) ==> s[j] != 10u8,
        newline_index(s) < s.len() ==> s[newline_index(s)] == 10u8,
    decreases s.len(),
{
    if s.len() > 0 && s[0] != 10u8 {
        lemma_newline_index_facts(s.drop_first());
        if newline_index(s) < s.len() {
            assert(s[newline_index(s)] == s.drop_first()[newline_index(s) - 1]);
        }
        assert forall|j: int| 0 <= j < newline_index(s) implies s[j] != 10u8 by {
            if j > 0 {
                assert(s[j] == s.drop_first()[j - 1]);
            }
        }
    }
}

/// A line holds no `\n` byte.
pub proof fn lemma_line_of_no_newline(s: Seq<u8>)
    ensures
        !line_of(s).contains(10u8),
{
    lemma_newline_index_facts(s);
    let l = line_of(s);
    if l.contains(10u8) {
        let j = choose|j: int| 0 <= j < l.len() && l[j] == 10u8;
        assert(l[j] == s[j]);
    }
}

/// A text that holds `\n` encodes to bytes that hold its byte.
pub proof fn lemma_encode_utf8_keeps_newline(c: Seq<char>)
    requires
        c.contains('\n'),
    ensures
        encode_utf8(c).contains(10u8),
    decreases c.len(),
{
    let e = encode_utf8(c);
    let a = encode_scalar(c[0] as u32);
    let b = encode_utf8(c.drop_first());
    assert(e == a + b);
    if c[0] == '\n' {
        assert(c[0] as u32 == 10u32);
        assert((10u32 & 0x7Fu32) as u8 == 10u8) by (bit_vector);
        assert(a =~= seq![10u8]);
        assert(e[0] == 10u8);
    } else {
        let j = choose|j: int| 0 <= j < c.len() && c[j] == '\n';
        assert(c.drop_first()[j - 1] == '\n');
        lemma_encode_utf8_keeps_newline(c.drop_first());
        let k = choose|k: int| 0 <= k < b.len() && b[k] == 10u8;
        assert(e[a.len() + k] == 10u8);
    }
}

/// The text of a line holds no `\n`.
pub proof fn lemma_line_text_no_newline(s: Seq<u8>)
    requires
        valid_utf8(line_of(s)),
    ensures
        !decode_utf8(line_of(s)).contains('\n'),
{
    let l = line_of(s);
    lemma_line_of_no_newline(s);
    decode_utf8_encode_utf8(l);
    if decode_utf8(l).contains('\n') {
        lemma_encode_utf8_keeps_newline(decode_utf8(l));
    }
}

} // verus!
