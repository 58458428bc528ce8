//! The command that asks the quote server for a stream:
//! `STREAM udp://host:port TICKER1,TICKER2`.

use crate::csv_format::{join_fields, lemma_split_join, text_range};
use crate::lexical::{
    chars_of, is_ws, is_whitespace_char, lemma_trim_start_first, range_is, split_bounds,
    split_on, trim, trim_bounds, trim_start,
};
use vstd::prelude::*;
use vstd::string::*;

verus! {

/// What `str::to_uppercase` gives for `s`.
pub uninterp spec fn uppercase_of(s: Seq<char>) -> Seq<char>;

/// `str::to_uppercase` of std: `s` with every character in upper case, as
/// Unicode defines it; what that is, character by character, is left to the
/// name.
#[verifier::external_body]
fn to_uppercase(s: &str) -> (r: String)
    ensures
        r@ == uppercase_of(s@),
{
    s.to_uppercase()
}

/// The index of the first whitespace character of `s`, or `s.len()`.
pub open spec fn first_ws(s: Seq<char>) -> int
    decreases s.len(),
{
    if s.len() == 0 {
        0
    } else if is_ws(s[0]) {
        0
    } else {
        1 + first_ws(s.drop_first())
    }
}

pub proof fn lemma_first_ws(s: Seq<char>, k: int)
    requires
        0 <= k <= s.len(),
        forall|j: int| 0 <= j < k ==> !is_ws(#[trigger] s[j]),
        k < s.len() ==> is_ws(s[k]),
    ensures
        first_ws(s) == k,
    decreases k,
{
    if k > 0 {
        lemma_first_ws(s.drop_first(), k - 1);
    }
}

pub proof fn lemma_trim_start_len(s: Seq<char>)
    ensures
        trim_start(s).len() <= s.len(),
    decreases s.len(),
{
    if s.len() > 0 && is_ws(s[0]) {
        lemma_trim_start_len(s.drop_first());
    }
}

pub proof fn lemma_first_ws_bounds(s: Seq<char>)
    ensures
        0 <= first_ws(s) <= s.len(),
    decreases s.len(),
{
    if s.len() > 0 && !is_ws(s[0]) {
        lemma_first_ws_bounds(s.drop_first());
    }
}

/// The words of `s`, as `str::split_whitespace` gives them.
pub open spec fn words(s: Seq<char>) -> Seq<Seq<char>>
    decreases s.len(),
{
    let t = trim_start(s);
    proof {
        lemma_trim_start_len(s);
        lemma_first_ws_bounds(t);
        lemma_trim_start_first(s);
        if t.len() > 0 {
            lemma_first_ws_bounds(t.drop_first());
        }
    }
    if t.len() == 0 {
        Seq::empty()
    } else {
        let k = first_ws(t);
        seq![t.take(k)] + words(t.skip(k))
    }
}

/// The bounds of the words of `v[lo..hi]`.
pub fn word_bounds(v: &Vec<char>, lo: usize, hi: usize) -> (r: Vec<(usize, usize)>)
    requires
        lo <= hi <= v@.len(),
    ensures
        r@.len() == words(v@.subrange(lo as int, hi as int)).len(),
        forall|i: int|
            0 <= i < r@.len() ==> {
                &&& lo <= (#[trigger] r@[i]).0 <= r@[i].1 <= hi
                &&& v@.subrange(r@[i].0 as int, r@[i].1 as int) == words(
                    v@.subrange(lo as int, hi as int),
                )[i]
            },
{
    let mut out: Vec<(usize, usize)> = Vec::new();
    let mut i = lo;
    let ghost whole = v@.subrange(lo as int, hi as int);
    let ghost mut done: Seq<Seq<char>> = Seq::empty();
    loop
        invariant
            lo <= i <= hi <= v@.len(),
            whole == v@.subrange(lo as int, hi as int),
            out@.len() == done.len(),
            words(whole) == done + words(v@.subrange(i as int, hi as int)),
            forall|k: int|
                0 <= k < out@.len() ==> {
                    &&& lo <= (#[trigger] out@[k]).0 <= out@[k].1 <= hi
                    &&& v@.subrange(out@[k].0 as int, out@[k].1 as int) == done[k]
                },
        decreases hi - i,
    {
        let ghost s = v@.subrange(i as int, hi as int);
        let mut a = i;
        while a < hi && is_whitespace_char(v[a])
            invariant
                i <= a <= hi <= v@.len(),
                s == v@.subrange(i as int, hi as int),
                trim_start(s) == trim_start(v@.subrange(a as int, hi as int)),
            decreases hi - a,
        {
            assert(v@.subrange(a as int, hi as int).drop_first() =~= v@.subrange(a + 1, hi as int));
            a = a + 1;
        }
        let ghost t = v@.subrange(a as int, hi as int);
        assert(trim_start(t) == t);
        if a == hi {
            proof {
                assert(words(s) =~= Seq::<Seq<char>>::empty());
                assert(done + Seq::<Seq<char>>::empty() =~= done);
            }
            return out;
        }
        let mut b = a;
        while b < hi && !is_whitespace_char(v[b])
            invariant
                a <= b <= hi <= v@.len(),
                forall|j: int| a <= j < b ==> !is_ws(#[trigger] v@[j]),
            decreases hi - b,
        {
            b = b + 1;
        }
        proof {
            assert forall|j: int| 0 <= j < b - a implies !is_ws(#[trigger] t[j]) by {
                assert(t[j] == v@[a + j]);
            }
            lemma_first_ws(t, b - a);
            assert(t.take(b - a) =~= v@.subrange(a as int, b as int));
            assert(t.skip(b - a) =~= v@.subrange(b as int, hi as int));
            assert(words(s) == seq![v@.subrange(a as int, b as int)] + words(
                v@.subrange(b as int, hi as int),
            ));
            done = done.push(v@.subrange(a as int, b as int));
            assert(words(whole) =~= done + words(v@.subrange(b as int, hi as int)));
        }
        out.push((a, b));
        i = b;
    }
}

/// The message for a command that is not three words starting with
/// `STREAM`.
pub open spec fn bad_command_message() -> Seq<char> {
    "ERROR: Неверный формат команды: STREAM udp://host:port TICKER1,TICKER2"@
}

/// The message for an address without the `udp://` prefix.
pub open spec fn not_udp_message() -> Seq<char> {
    "ERROR: Принимаем только UDP: в адресе нет префикса udp://"@
}

/// The message for a command that names no company.
pub open spec fn no_companies_message() -> Seq<char> {
    "ERROR: Не указано ни одной компании"@
}

/// The address text and the list of companies of a command, or the message
/// of what is wrong with it; the address itself is not read here.
pub open spec fn command_parts(input: Seq<char>) -> Result<(Seq<char>, Seq<char>), Seq<char>> {
    let ws = words(trim(input));
    if ws.len() != 3 || uppercase_of(ws[0]) != "STREAM"@ {
        Err(bad_command_message())
    } else if !("udp://"@.is_prefix_of(ws[1])) {
        Err(not_udp_message())
    } else {
        Ok((ws[1].skip(6), ws[2]))
    }
}

/// The address text and the list of companies of a stream command, or the
/// message of what is wrong with it.
pub fn split_stream_command(input: &str) -> (r: Result<(String, String), String>)
    ensures
        match command_parts(input@) {
            Ok((a, c)) => r matches Ok((x, y)) && x@ == a && y@ == c,
            Err(m) => r matches Err(x) && x@ == m,
        },
{
    let v = chars_of(input);
    let (lo, hi) = trim_bounds(&v, 0, v.len());
    assert(v@.subrange(0, v@.len() as int) =~= v@);
    let ws = word_bounds(&v, lo, hi);
    if ws.len() != 3 {
        return Err("ERROR: Неверный формат команды: STREAM udp://host:port TICKER1,TICKER2".to_owned());
    }
    let first = text_range(input, ws[0].0, ws[0].1);
    let upper = to_uppercase(first.as_str());
    let uv = chars_of(upper.as_str());
    let un = uv.len();
    if !range_is(&uv, 0, un, "STREAM") {
        assert(uv@.subrange(0, un as int) =~= uv@);
        return Err("ERROR: Неверный формат команды: STREAM udp://host:port TICKER1,TICKER2".to_owned());
    }
    assert(uv@.subrange(0, un as int) =~= uv@);
    let (a0, a1) = ws[1];
    let (c0, c1) = ws[2];
    if a1 - a0 < 6 || !range_is(&v, a0, a0 + 6, "udp://") {
        proof {
            reveal_strlit("udp://");
            let w = v@.subrange(a0 as int, a1 as int);
            if "udp://"@.is_prefix_of(w) {
                assert(w.subrange(0, 6) =~= v@.subrange(a0 as int, a0 + 6));
                assert(w.subrange(0, 6) =~= "udp://"@);
            }
        }
        return Err("ERROR: Принимаем только UDP: в адресе нет префикса udp://".to_owned());
    }
    proof {
        reveal_strlit("udp://");
        let w = v@.subrange(a0 as int, a1 as int);
        assert(w.subrange(0, 6) =~= v@.subrange(a0 as int, a0 + 6));
        assert("udp://"@.is_prefix_of(w));
        assert(w.skip(6) =~= v@.subrange(a0 + 6, a1 as int));
    }
    let address = text_range(input, a0 + 6, a1);
    let companies = text_range(input, c0, c1);
    Ok((address, companies))
}

/// The views of a list of strings.
pub open spec fn strings_view(v: Seq<String>) -> Seq<Seq<char>> {
    v.map_values(|s: String| s@)
}

/// The non-empty entries of `s`, in order.
pub open spec fn non_empty(s: Seq<Seq<char>>) -> Seq<Seq<char>> {
    s.filter(|t: Seq<char>| t.len() > 0)
}

/// The companies of a command from its entries in upper case: the empty
/// entries are dropped, and none being left is an error.
pub fn collect_companies(entries: Vec<String>) -> (r: Result<Vec<String>, String>)
    ensures
        non_empty(strings_view(entries@)).len() > 0 ==> (r matches Ok(v) && strings_view(v@)
            == non_empty(strings_view(entries@))),
        non_empty(strings_view(entries@)).len() == 0 ==> (r matches Err(m) && m@
            == no_companies_message()),
{
    let mut out: Vec<String> = Vec::new();
    let mut i: usize = 0;
    let ghost ev = strings_view(entries@);
    while i < entries.len()
        invariant
            ev == strings_view(entries@),
            i <= entries@.len(),
            strings_view(out@) == non_empty(ev.take(i as int)),
        decreases entries@.len() - i,
    {
        let e = &entries[i];
        proof {
            assert(ev.take(i + 1) =~= ev.take(i as int).push(ev[i as int]));
            ev.take(i as int).lemma_filter_push(ev[i as int], |t: Seq<char>| t.len() > 0);
        }
        if e.as_str().unicode_len() > 0 {
            out.push(e.clone());
            assert(strings_view(out@) =~= non_empty(ev.take(i + 1)));
        }
        i = i + 1;
    }
    assert(ev.take(entries@.len() as int) =~= ev);
    if out.len() == 0 {
        return Err("ERROR: Не указано ни одной компании".to_owned());
    }
    Ok(out)
}

/// The entries of a list of companies: its comma-separated pieces, trimmed
/// and in upper case.
pub open spec fn company_entries(list: Seq<char>) -> Seq<Seq<char>> {
    split_on(list, ',').map_values(|p: Seq<char>| uppercase_of(trim(p)))
}

/// The companies of a comma-separated list: each piece trimmed and in upper
/// case, empty ones dropped; none being left is an error.
pub fn stream_companies(list: &str) -> (r: Result<Vec<String>, String>)
    ensures
        non_empty(company_entries(list@)).len() > 0 ==> (r matches Ok(v) && strings_view(v@)
            == non_empty(company_entries(list@))),
        non_empty(company_entries(list@)).len() == 0 ==> (r matches Err(m) && m@
            == no_companies_message()),
{
    let v = chars_of(list);
    assert(v@.subrange(0, v@.len() as int) =~= v@);
    let pieces = split_bounds(&v, 0, v.len(), ',');
    let ghost ps = split_on(list@, ',');
    let mut entries: Vec<String> = Vec::new();
    let mut i: usize = 0;
    while i < pieces.len()
        invariant
            v@ == list@,
            ps == split_on(list@, ','),
            pieces@.len() == ps.len(),
            forall|k: int|
                0 <= k < pieces@.len() ==> {
                    &&& 0 <= (#[trigger] pieces@[k]).0 <= pieces@[k].1 <= v@.len()
                    &&& v@.subrange(pieces@[k].0 as int, pieces@[k].1 as int) == ps[k]
                },
            i <= pieces@.len(),
            strings_view(entries@) == company_entries(list@).take(i as int),
        decreases pieces@.len() - i,
    {
        let (p0, p1) = pieces[i];
        let (t0, t1) = trim_bounds(&v, p0, p1);
        let piece = text_range(list, t0, t1);
        let upper = to_uppercase(piece.as_str());
        let ghost before = strings_view(entries@);
        entries.push(upper);
        proof {
            assert(piece@ == trim(ps[i as int]));
            let ce = company_entries(list@);
            assert(ce[i as int] == uppercase_of(trim(ps[i as int])));
            assert(ce.take(i + 1) =~= ce.take(i as int).push(ce[i as int]));
            assert(strings_view(entries@) =~= before.push(upper@));
        }
        i = i + 1;
    }
    assert(company_entries(list@).take(pieces@.len() as int) =~= company_entries(list@));
    collect_companies(entries)
}

/// Law: for a list made of the pieces `ps` joined with commas, none of them
/// holding a comma, there is one entry for each piece, the last one
/// included, and entry `i` is piece `i` trimmed and in upper case; so the
/// companies that `stream_companies` gives are those of the pieces whose
/// entry is not empty, in the order of the pieces.
pub proof fn law_one_company_per_piece(ps: Seq<Seq<char>>)
    requires
        ps.len() >= 1,
        forall|i: int| 0 <= i < ps.len() ==> !(#[trigger] ps[i]).contains(','),
    ensures
        company_entries(join_fields(ps, ',')).len() == ps.len(),
        forall|i: int|
            0 <= i < ps.len() ==> #[trigger] company_entries(join_fields(ps, ','))[i]
                == uppercase_of(trim(ps[i])),
        non_empty(company_entries(join_fields(ps, ','))) == non_empty(
            ps.map_values(|p: Seq<char>| uppercase_of(trim(p))),
        ),
{
    lemma_split_join(ps, ',');
    assert(company_entries(join_fields(ps, ',')) =~= ps.map_values(
        |p: Seq<char>| uppercase_of(trim(p)),
    ));
}

} // verus!
