//! Incremental Server-Sent-Events decoder.
//!
//! Bytes arrive in arbitrary chunks (TCP fragments, multibyte characters cut
//! in half); the decoder buffers them, cuts complete events at the first
//! blank line (`\n\n` or `\r\n\r\n`) and returns the joined `data:` lines of
//! each complete event.

use vstd::prelude::*;
use vstd::utf8::*;
use crate::text::{chars_of, lemma_trim_end_take, slice_chars, string_of, starts_with_spec, trim_end_by};

verus! {

/// `needle` occurs in `hay` starting at `i`.
pub open spec fn occurs_at(hay: Seq<u8>, needle: Seq<u8>, i: int) -> bool {
    0 <= i && i + needle.len() <= hay.len() && hay.subrange(i, i + needle.len()) == needle
}

/// The first position at or after `from` where `needle` occurs in `hay`
/// (`<[u8]>::windows(..).position(..)`).
pub open spec fn find_from(hay: Seq<u8>, needle: Seq<u8>, from: int) -> Option<int>
    decreases hay.len() + 1 - from,
{
    if from < 0 || from + needle.len() > hay.len() {
        None
    } else if occurs_at(hay, needle, from) {
        Some(from)
    } else {
        find_from(hay, needle, from + 1)
    }
}

pub open spec fn find_bytes_spec(hay: Seq<u8>, needle: Seq<u8>) -> Option<int> {
    find_from(hay, needle, 0)
}

pub open spec fn lf_lf() -> Seq<u8> {
    seq![10u8, 10u8]
}

pub open spec fn crlf_crlf() -> Seq<u8> {
    seq![13u8, 10u8, 13u8, 10u8]
}

/// The first event boundary in `buf`: its position and the length of the
/// blank-line delimiter found there. The earlier of `\n\n` and `\r\n\r\n`
/// wins.
pub open spec fn boundary(buf: Seq<u8>) -> Option<(int, int)> {
    let lf = find_bytes_spec(buf, lf_lf());
    let crlf = find_bytes_spec(buf, crlf_crlf());
    match (lf, crlf) {
        (Some(l), Some(c)) => if l < c {
            Some((l, 2))
        } else {
            Some((c, 4))
        },
        (Some(l), None) => Some((l, 2)),
        (None, Some(c)) => Some((c, 4)),
        (None, None) => None,
    }
}

/// Cuts `buf` into complete raw events and the unfinished remainder.
pub open spec fn split_events(buf: Seq<u8>) -> (Seq<Seq<u8>>, Seq<u8>)
    decreases buf.len(),
{
    match boundary(buf) {
        Some((i, d)) => if 0 <= i && i + d <= buf.len() && d > 0 {
            let (rest_events, rest) = split_events(buf.subrange(i + d, buf.len() as int));
            (seq![buf.subrange(0, i)] + rest_events, rest)
        } else {
            (Seq::empty(), buf)
        },
        None => (Seq::empty(), buf),
    }
}

/// Position of the first `\n` in `t`, or `t.len()` when there is none.
pub open spec fn first_nl(t: Seq<char>) -> nat
    decreases t.len(),
{
    if t.len() == 0 {
        0
    } else if t[0] == '\n' {
        0
    } else {
        1 + first_nl(t.drop_first())
    }
}

/// `str::lines` without the `\r` handling: pieces between `\n`s, with no
/// empty piece after a final `\n`.
pub open spec fn split_lines(t: Seq<char>) -> Seq<Seq<char>>
    decreases t.len(),
{
    if t.len() == 0 {
        Seq::empty()
    } else {
        let i = first_nl(t) as int;
        if i >= t.len() {
            seq![t]
        } else {
            seq![t.subrange(0, i)] + split_lines(t.subrange(i + 1, t.len() as int))
        }
    }
}

/// The payload of one event line: the text after `data:` and one optional
/// space, once trailing `\r`s are removed; `None` for other lines.
pub open spec fn data_of_line(line: Seq<char>) -> Option<Seq<char>> {
    let l = trim_end_by(line, |c: char| c == '\r');
    if starts_with_spec(l, "data:"@) {
        let d = l.subrange(5, l.len() as int);
        if d.len() > 0 && d[0] == ' ' {
            Some(d.drop_first())
        } else {
            Some(d)
        }
    } else {
        None
    }
}

/// The payloads of the `data:` lines, in order.
pub open spec fn data_lines(lines: Seq<Seq<char>>) -> Seq<Seq<char>>
    decreases lines.len(),
{
    if lines.len() == 0 {
        Seq::empty()
    } else {
        let rest = data_lines(lines.drop_last());
        match data_of_line(lines.last()) {
            Some(d) => rest.push(d),
            None => rest,
        }
    }
}

/// `parts` joined with `sep` between consecutive parts.
pub open spec fn join(parts: Seq<Seq<char>>, sep: Seq<char>) -> Seq<char>
    decreases parts.len(),
{
    if parts.len() == 0 {
        Seq::empty()
    } else if parts.len() == 1 {
        parts[0]
    } else {
        join(parts.drop_last(), sep) + sep + parts.last()
    }
}

/// The data carried by one raw event: `None` when it is not UTF-8 or has no
/// `data:` line, else its `data:` payloads joined by `\n`.
pub open spec fn event_data(raw: Seq<u8>) -> Option<Seq<char>> {
    if !valid_utf8(raw) {
        None
    } else {
        let data = data_lines(split_lines(decode_utf8(raw)));
        if data.len() == 0 {
            None
        } else {
            Some(join(data, "\n"@))
        }
    }
}

/// The data of the events that carry some, in order.
pub open spec fn events_data(events: Seq<Seq<u8>>) -> Seq<Seq<char>>
    decreases events.len(),
{
    if events.len() == 0 {
        Seq::empty()
    } else {
        let rest = events_data(events.drop_last());
        match event_data(events.last()) {
            Some(d) => rest.push(d),
            None => rest,
        }
    }
}

/// Decodes UTF-8 bytes into a `String`.
///
/// Trusted: calls `String::from_utf8`, which std documents as succeeding
/// exactly when the bytes are valid UTF-8 and then holding the decoded
/// characters.
#[verifier::external_body]
fn utf8_decode(bytes: &[u8]) -> (r: Option<String>)
    ensures
        r is Some <==> valid_utf8(bytes@),
        r matches Some(s) ==> s@ == decode_utf8(bytes@),
{
    String::from_utf8(bytes.to_vec()).ok()
}


proof fn lemma_find_from_none(hay: Seq<u8>, needle: Seq<u8>, from: int)
    requires
        0 <= from,
        forall|k: int| from <= k && k + needle.len() <= hay.len() ==> !occurs_at(hay, needle, k),
    ensures
        find_from(hay, needle, from) is None,
    decreases hay.len() + 1 - from,
{
    if from + needle.len() <= hay.len() {
        lemma_find_from_none(hay, needle, from + 1);
    }
}

/// `<[u8]>::windows(needle.len()).position(|w| w == needle)`.
pub fn find_bytes(hay: &[u8], needle: &[u8]) -> (r: Option<usize>)
    requires
        needle@.len() > 0,
    ensures
        r matches Some(i) ==> find_bytes_spec(hay@, needle@) == Some(i as int),
        r is None ==> find_bytes_spec(hay@, needle@) is None,
{
    let n = hay.len();
    let m = needle.len();
    if m > n {
        return None;
    }
    let mut i: usize = 0;
    while i <= n - m
        invariant
            n == hay@.len(),
            m == needle@.len(),
            m <= n,
            i <= n,
            forall|k: int| 0 <= k < i ==> !occurs_at(hay@, needle@, k),
            find_from(hay@, needle@, 0) == find_from(hay@, needle@, i as int),
        decreases n - i,
    {
        let mut j: usize = 0;
        let mut ok = true;
        while j < m
            invariant
                n == hay@.len(),
                m == needle@.len(),
                i + m <= n,
                j <= m,
                ok == (forall|k: int| 0 <= k < j ==> hay@[i + k] == needle@[k]),
            decreases m - j,
        {
            if hay[i + j] != needle[j] {
                ok = false;
            }
            j = j + 1;
        }
        if ok {
            assert(hay@.subrange(i as int, i + m) =~= needle@);
            return Some(i);
        }
        assert(!occurs_at(hay@, needle@, i as int)) by {
            if occurs_at(hay@, needle@, i as int) {
                assert forall|k: int| 0 <= k < m implies hay@[i + k] == needle@[k] by {
                    assert(hay@.subrange(i as int, i + m)[k] == hay@[i + k]);
                }
            }
        }
        i = i + 1;
    }
    proof {
        lemma_find_from_none(hay@, needle@, i as int);
    }
    None
}

/// The first event boundary and its delimiter length.
pub fn next_sse_boundary(buffer: &[u8]) -> (r: Option<(usize, usize)>)
    ensures
        r matches Some((i, d)) ==> boundary(buffer@) == Some((i as int, d as int)),
        r is None ==> boundary(buffer@) is None,
{
    let lf_needle: [u8; 2] = [10u8, 10u8];
    let crlf_needle: [u8; 4] = [13u8, 10u8, 13u8, 10u8];
    assert(lf_needle@ =~= lf_lf());
    assert(crlf_needle@ =~= crlf_crlf());
    let lf = find_bytes(buffer, &lf_needle);
    let crlf = find_bytes(buffer, &crlf_needle);
    match (lf, crlf) {
        (Some(l), Some(c)) => if l < c {
            Some((l, 2))
        } else {
            Some((c, 4))
        },
        (Some(l), None) => Some((l, 2)),
        (None, Some(c)) => Some((c, 4)),
        (None, None) => None,
    }
}


proof fn lemma_first_nl(u: Seq<char>, j: int)
    requires
        0 <= j <= u.len(),
        forall|k: int| 0 <= k < j ==> #[trigger] u[k] != '\n',
        j == u.len() || u[j] == '\n',
    ensures
        first_nl(u) == j,
    decreases j,
{
    if j > 0 {
        lemma_first_nl(u.drop_first(), j - 1);
    }
}

/// Characters of `v` without trailing `c`s.
fn trim_end_chars(v: &Vec<char>, c: char) -> (r: Vec<char>)
    ensures
        r@ == trim_end_by(v@, |x: char| x == c),
{
    let n = v.len();
    let mut k: usize = n;
    while k > 0 && v[k - 1] == c
        invariant
            k <= n,
            n == v@.len(),
            forall|j: int| k <= j < n ==> #[trigger] v@[j] == c,
        decreases k,
    {
        k = k - 1;
    }
    proof {
        let p = |x: char| x == c;
        assert forall|j: int| k <= j < v@.len() implies p(#[trigger] v@[j]) by {}
        lemma_trim_end_take(v@, p, k as int);
        if k > 0 {
            assert(v@.subrange(0, k as int).last() == v@[k - 1]);
        }
    }
    slice_chars(v, 0, k)
}

fn data_of_line_exec(line: &Vec<char>) -> (r: Option<Vec<char>>)
    ensures
        r matches Some(d) ==> data_of_line(line@) == Some(d@),
        r is None ==> data_of_line(line@) is None,
{
    let l = trim_end_chars(line, '\r');
    let n = l.len();
    if n >= 5 && l[0] == 'd' && l[1] == 'a' && l[2] == 't' && l[3] == 'a' && l[4] == ':' {
        assert(l@.subrange(0, 5) =~= "data:"@) by {
            reveal_strlit("data:");
        }
        if n > 5 && l[5] == ' ' {
            let d = slice_chars(&l, 6, n);
            assert(d@ =~= l@.subrange(5, n as int).drop_first());
            Some(d)
        } else {
            Some(slice_chars(&l, 5, n))
        }
    } else {
        proof {
            reveal_strlit("data:");
            if starts_with_spec(l@, "data:"@) {
                assert(l@.subrange(0, 5)[0] == 'd');
                assert(l@.subrange(0, 5)[1] == 'a');
                assert(l@.subrange(0, 5)[2] == 't');
                assert(l@.subrange(0, 5)[3] == 'a');
                assert(l@.subrange(0, 5)[4] == ':');
            }
        }
        None
    }
}

/// The character views of a sequence of strings.
pub open spec fn string_views(v: Seq<String>) -> Seq<Seq<char>> {
    v.map_values(|x: String| x@)
}

pub open spec fn views(v: Seq<Vec<char>>) -> Seq<Seq<char>> {
    v.map_values(|x: Vec<char>| x@)
}

/// The `data:` payloads of the lines of `t`.
fn collect_data_lines(t: &Vec<char>) -> (r: Vec<Vec<char>>)
    ensures
        views(r@) == data_lines(split_lines(t@)),
{
    let n = t.len();
    let mut out: Vec<Vec<char>> = Vec::new();
    let mut p: usize = 0;
    let ghost mut done: Seq<Seq<char>> = Seq::empty();
    assert(t@.subrange(0, n as int) =~= t@);
    while p < n
        invariant
            n == t@.len(),
            p <= n,
            done + split_lines(t@.subrange(p as int, n as int)) == split_lines(t@),
            views(out@) == data_lines(done),
        decreases n - p,
    {
        let mut i = p;
        while i < n && t[i] != '\n'
            invariant
                p <= i <= n,
                n == t@.len(),
                forall|k: int| p <= k < i ==> #[trigger] t@[k] != '\n',
            decreases n - i,
        {
            i = i + 1;
        }
        let ghost u = t@.subrange(p as int, n as int);
        proof {
            assert forall|k: int| 0 <= k < i - p implies #[trigger] u[k] != '\n' by {
                assert(u[k] == t@[p + k]);
            }
            lemma_first_nl(u, i - p);
        }
        let line = slice_chars(t, p, i);
        proof {
            assert(line@ =~= u.subrange(0, i - p));
            if i < n {
                assert(u.subrange(i - p + 1, u.len() as int) =~= t@.subrange(i + 1, n as int));
                assert(split_lines(u) == seq![line@] + split_lines(t@.subrange(i + 1, n as int)));
            } else {
                assert(split_lines(u) == seq![line@]);
                assert(t@.subrange(n as int, n as int) =~= Seq::<char>::empty());
            }
        }
        let ghost old_done = done;
        proof {
            done = done.push(line@);
            assert(done.drop_last() =~= old_done);
        }
        match data_of_line_exec(&line) {
            Some(d) => {
                out.push(d);
            },
            None => {},
        }
        proof {
            assert(views(out@) =~= data_lines(done));
        }
        if i < n {
            p = i + 1;
            proof {
                assert(old_done + split_lines(u) =~= done + split_lines(t@.subrange(p as int, n as int)));
            }
        } else {
            p = n;
            proof {
                assert(old_done + split_lines(u) =~= done + split_lines(t@.subrange(p as int, n as int)));
            }
        }
    }
    proof {
        assert(t@.subrange(p as int, n as int) =~= Seq::<char>::empty());
        assert(done + split_lines(Seq::<char>::empty()) =~= done);
    }
    out
}

/// The `data:` payloads of one raw event joined by `\n`, or `None` when the
/// event is not valid UTF-8 or carries no `data:` line.
pub fn parse_sse_data(raw: &[u8]) -> (r: Option<String>)
    ensures
        r matches Some(s) ==> event_data(raw@) == Some(s@),
        r is None ==> event_data(raw@) is None,
{
    let text = match utf8_decode(raw) {
        Some(s) => s,
        None => return None,
    };
    let t = chars_of(text.as_str());
    let data = collect_data_lines(&t);
    if data.len() == 0 {
        return None;
    }
    let mut out: Vec<char> = Vec::new();
    let mut k: usize = 0;
    while k < data.len()
        invariant
            0 < data@.len(),
            k <= data@.len(),
            k == 0 ==> out@ == Seq::<char>::empty(),
            k > 0 ==> out@ == join(views(data@).subrange(0, k as int), "\n"@),
        decreases data.len() - k,
    {
        let ghost before = out@;
        if k > 0 {
            push_newline(&mut out);
        }
        let piece = &data[k];
        let mut j: usize = 0;
        let ghost mid = out@;
        while j < piece.len()
            invariant
                j <= piece@.len(),
                out@ == mid + piece@.subrange(0, j as int),
            decreases piece.len() - j,
        {
            out.push(piece[j]);
            j = j + 1;
            assert(out@ =~= mid + piece@.subrange(0, j as int));
        }
        proof {
            assert(piece@.subrange(0, j as int) =~= piece@);
            let vs = views(data@);
            let pre = vs.subrange(0, k + 1);
            if k == 0 {
                assert(pre.len() == 1);
                assert(out@ =~= pre[0]);
            } else {
                assert(pre.drop_last() =~= vs.subrange(0, k as int));
                assert(out@ =~= before + "\n"@ + piece@);
            }
        }
        k = k + 1;
    }
    assert(views(data@).subrange(0, data@.len() as int) =~= views(data@));
    Some(string_of(&out))
}

fn push_newline(out: &mut Vec<char>)
    ensures
        final(out)@ == old(out)@ + "\n"@,
{
    out.push('\n');
    proof {
        reveal_strlit("\n");
    }
    assert(out@ =~= old(out)@ + "\n"@);
}


proof fn lemma_find_from_some(hay: Seq<u8>, needle: Seq<u8>, from: int)
    requires
        find_from(hay, needle, from) is Some,
    ensures
        ({
            let i = find_from(hay, needle, from)->0;
            &&& from <= i
            &&& occurs_at(hay, needle, i)
            &&& forall|k: int| from <= k < i ==> !occurs_at(hay, needle, k)
        }),
    decreases hay.len() + 1 - from,
{
    if !occurs_at(hay, needle, from) {
        lemma_find_from_some(hay, needle, from + 1);
    }
}

proof fn lemma_find_from_none_all(hay: Seq<u8>, needle: Seq<u8>, from: int)
    requires
        0 <= from,
        find_from(hay, needle, from) is None,
    ensures
        forall|k: int| from <= k ==> !occurs_at(hay, needle, k),
    decreases hay.len() + 1 - from,
{
    if from + needle.len() <= hay.len() {
        lemma_find_from_none_all(hay, needle, from + 1);
    }
}

proof fn lemma_occurs_extend(x: Seq<u8>, y: Seq<u8>, needle: Seq<u8>, k: int)
    requires
        0 <= k,
        k + needle.len() <= x.len(),
    ensures
        occurs_at(x + y, needle, k) == occurs_at(x, needle, k),
{
    assert((x + y).subrange(k, k + needle.len()) =~= x.subrange(k, k + needle.len()));
}

/// A first occurrence found inside `x` is still the first one once more
/// bytes follow.
proof fn lemma_find_extend(x: Seq<u8>, y: Seq<u8>, needle: Seq<u8>, from: int)
    requires
        0 <= from,
        find_from(x, needle, from) is Some,
    ensures
        find_from(x + y, needle, from) == find_from(x, needle, from),
    decreases x.len() + 1 - from,
{
    lemma_find_from_some(x, needle, from);
    lemma_occurs_extend(x, y, needle, from);
    if !occurs_at(x, needle, from) {
        lemma_find_extend(x, y, needle, from + 1);
    }
}

/// An occurrence in `x + y` that `x` alone lacks must reach past `x`.
proof fn lemma_find_none_extend(x: Seq<u8>, y: Seq<u8>, needle: Seq<u8>)
    requires
        find_from(x, needle, 0) is None,
        find_from(x + y, needle, 0) is Some,
    ensures
        find_from(x + y, needle, 0)->0 + needle.len() > x.len(),
        occurs_at(x + y, needle, find_from(x + y, needle, 0)->0),
{
    lemma_find_from_none_all(x, needle, 0);
    lemma_find_from_some(x + y, needle, 0);
    let j = find_from(x + y, needle, 0)->0;
    if j + needle.len() <= x.len() {
        lemma_occurs_extend(x, y, needle, j);
    }
}

proof fn lemma_boundary_extend(x: Seq<u8>, y: Seq<u8>)
    requires
        boundary(x) is Some,
    ensures
        boundary(x + y) == boundary(x),
{
    let xy = x + y;
    let lf = find_bytes_spec(x, lf_lf());
    let crlf = find_bytes_spec(x, crlf_crlf());
    if lf is Some {
        lemma_find_extend(x, y, lf_lf(), 0);
        lemma_find_from_some(x, lf_lf(), 0);
    }
    if crlf is Some {
        lemma_find_extend(x, y, crlf_crlf(), 0);
        lemma_find_from_some(x, crlf_crlf(), 0);
    }
    if lf is Some && crlf is None {
        let l = lf->0;
        if find_bytes_spec(xy, crlf_crlf()) is Some {
            lemma_find_none_extend(x, y, crlf_crlf());
            let c = find_bytes_spec(xy, crlf_crlf())->0;
            assert(xy.subrange(l, l + 2) == lf_lf());
            assert(xy.subrange(c, c + 4) == crlf_crlf());
            assert(xy[l] == 10u8 && xy[l + 1] == 10u8) by {
                assert(xy.subrange(l, l + 2)[0] == xy[l]);
                assert(xy.subrange(l, l + 2)[1] == xy[l + 1]);
            }
            assert(xy.subrange(c, c + 4)[0] == xy[c]);
            assert(xy.subrange(c, c + 4)[1] == xy[c + 1]);
            assert(xy.subrange(c, c + 4)[2] == xy[c + 2]);
            assert(c > l);
        }
    }
    if lf is None && crlf is Some {
        let c = crlf->0;
        if find_bytes_spec(xy, lf_lf()) is Some {
            lemma_find_none_extend(x, y, lf_lf());
        }
    }
}

/// Splitting more bytes continues from where the shorter split stopped.
pub proof fn lemma_split_events_append(x: Seq<u8>, y: Seq<u8>)
    ensures
        split_events(x + y) == (
            split_events(x).0 + split_events(split_events(x).1 + y).0,
            split_events(split_events(x).1 + y).1,
        ),
    decreases x.len(),
{
    match boundary(x) {
        Some((i, d)) => {
            lemma_boundary_extend(x, y);
            if 0 <= i && i + d <= x.len() && d > 0 {
                let tail = x.subrange(i + d, x.len() as int);
                lemma_split_events_append(tail, y);
                assert((x + y).subrange(i + d, (x + y).len() as int) =~= tail + y);
                assert((x + y).subrange(0, i) =~= x.subrange(0, i));
                let (e1, r1) = split_events(tail);
                assert(seq![x.subrange(0, i)] + (e1 + split_events(r1 + y).0) =~= (seq![
                    x.subrange(0, i),
                ] + e1) + split_events(r1 + y).0);
            } else {
                // boundary positions always lie inside the buffer
                let lf = find_bytes_spec(x, lf_lf());
                let crlf = find_bytes_spec(x, crlf_crlf());
                if lf is Some {
                    lemma_find_from_some(x, lf_lf(), 0);
                }
                if crlf is Some {
                    lemma_find_from_some(x, crlf_crlf(), 0);
                }
            }
        },
        None => {
            assert(Seq::<Seq<u8>>::empty() + split_events(x + y).0 =~= split_events(x + y).0);
        },
    }
}

proof fn lemma_events_data_append(a: Seq<Seq<u8>>, b: Seq<Seq<u8>>)
    ensures
        events_data(a + b) == events_data(a) + events_data(b),
    decreases b.len(),
{
    if b.len() == 0 {
        assert(a + b =~= a);
        assert(events_data(a) + events_data(b) =~= events_data(a));
    } else {
        assert((a + b).drop_last() =~= a + b.drop_last());
        assert((a + b).last() == b.last());
        lemma_events_data_append(a, b.drop_last());
        match event_data(b.last()) {
            Some(d) => {
                assert(events_data(a) + events_data(b.drop_last()).push(d) =~= (events_data(a)
                    + events_data(b.drop_last())).push(d));
            },
            None => {},
        }
    }
}

proof fn lemma_boundary_in_range(x: Seq<u8>)
    requires
        boundary(x) is Some,
    ensures
        boundary(x) matches Some((i, d)) ==> 0 <= i && i + d <= x.len() && (d == 2 || d == 4),
{
    if find_bytes_spec(x, lf_lf()) is Some {
        lemma_find_from_some(x, lf_lf(), 0);
    }
    if find_bytes_spec(x, crlf_crlf()) is Some {
        lemma_find_from_some(x, crlf_crlf(), 0);
    }
}

/// A decoder buffering `pending` bytes.
pub struct SseDecoder {
    buffer: Vec<u8>,
}

impl SseDecoder {
    /// The bytes received but not yet part of a complete event.
    pub closed spec fn pending(&self) -> Seq<u8> {
        self.buffer@
    }

    /// A decoder with nothing buffered.
    pub fn new() -> (r: Self)
        ensures
            r.pending() == Seq::<u8>::empty(),
    {
        SseDecoder { buffer: Vec::new() }
    }

    /// Appends `chunk` to the buffered bytes, removes every complete event
    /// from the front and returns the data of those that carry `data:`
    /// lines, in order.
    pub fn push(&mut self, chunk: &[u8]) -> (events: Vec<String>)
        ensures
            final(self).pending() == split_events(old(self).pending() + chunk@).1,
            string_views(events@) == events_data(
                split_events(old(self).pending() + chunk@).0,
            ),
    {
        let ghost start = old(self).buffer@ + chunk@;
        self.buffer.extend_from_slice(chunk);
        assert(self.buffer@ =~= start);
        let mut events: Vec<String> = Vec::new();
        let ghost mut done: Seq<Seq<u8>> = Seq::empty();
        loop
            invariant
                start == old(self).buffer@ + chunk@,
                split_events(start).1 == split_events(self.buffer@).1,
                split_events(start).0 == done + split_events(self.buffer@).0,
                string_views(events@) == events_data(done),
            decreases self.buffer@.len(),
        {
            match next_sse_boundary(self.buffer.as_slice()) {
                Some((index, delimiter_len)) => {
                    let ghost buf = self.buffer@;
                    proof {
                        lemma_boundary_in_range(buf);
                    }
                    let blen = self.buffer.len();
                    assert(index + delimiter_len <= blen);
                    let raw = slice_bytes(&self.buffer, 0, index);
                    let rest = slice_bytes(&self.buffer, index + delimiter_len, blen);
                    self.buffer = rest;
                    let ghost old_done = done;
                    proof {
                        done = done.push(raw@);
                        assert(done.drop_last() =~= old_done);
                        assert(old_done + split_events(buf).0 =~= done + split_events(self.buffer@).0);
                    }
                    match parse_sse_data(raw.as_slice()) {
                        Some(data) => {
                            events.push(data);
                        },
                        None => {},
                    }
                    assert(string_views(events@) =~= events_data(done));
                },
                None => {
                    assert(split_events(self.buffer@) == (Seq::<Seq<u8>>::empty(), self.buffer@));
                    assert(done + split_events(self.buffer@).0 =~= done);
                    return events;
                },
            }
        }
    }
}

impl Default for SseDecoder {
    fn default() -> (r: Self)
        ensures
            r.pending() == Seq::<u8>::empty(),
    {
        SseDecoder::new()
    }
}

fn slice_bytes(v: &Vec<u8>, from: usize, to: usize) -> (r: Vec<u8>)
    requires
        from <= to <= v@.len(),
    ensures
        r@ == v@.subrange(from as int, to as int),
{
    let mut out: Vec<u8> = Vec::new();
    let mut i = from;
    while i < to
        invariant
            from <= i <= to,
            to <= v@.len(),
            out@ == v@.subrange(from as int, i as int),
        decreases to - i,
    {
        out.push(v[i]);
        i = i + 1;
        assert(out@ =~= v@.subrange(from as int, i as int));
    }
    out
}

/// Feeding bytes to the decoder in two pieces gives the same events, in the
/// same order, and leaves the same bytes pending as feeding them at once:
/// events split across chunks (and multibyte characters cut in half) are
/// reassembled.
pub proof fn lemma_push_chunking(pending: Seq<u8>, a: Seq<u8>, b: Seq<u8>)
    ensures
        ({
            let (e1, r1) = split_events(pending + a);
            let (e2, r2) = split_events(r1 + b);
            &&& events_data(e1) + events_data(e2) == events_data(split_events(pending + a + b).0)
            &&& r2 == split_events(pending + a + b).1
        }),
{
    lemma_split_events_append(pending + a, b);
    let (e1, r1) = split_events(pending + a);
    let (e2, r2) = split_events(r1 + b);
    lemma_events_data_append(e1, e2);
}

} // verus!
