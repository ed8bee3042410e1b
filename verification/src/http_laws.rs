//! What holds of every forwarded request and of every answer.
use crate::http;
use crate::text;
use vstd::prelude::*;
use vstd::utf8::*;

verus! {

broadcast use vstd::seq_lib::group_seq_properties;

// ── The lines of a forwarded header block ───────────────────────────────────

/// `lines`, with a carriage return and a line feed between each two.
pub open spec fn joined(lines: Seq<Seq<char>>) -> Seq<char>
    decreases lines.len(),
{
    if lines.len() == 0 {
        seq![]
    } else if lines.len() == 1 {
        lines[0]
    } else {
        lines[0] + seq!['\r', '\n'] + joined(lines.drop_first())
    }
}

/// The `Host` line of a request to the model server on `port`.
pub open spec fn host_line(port: u16) -> Seq<char> {
    "Host: 127.0.0.1:"@ + text::decimal(port as nat)
}

/// The `Content-Length` line of a request with a body of `n` bytes.
pub open spec fn length_line(n: nat) -> Seq<char> {
    "Content-Length: "@ + text::decimal(n)
}

/// The lines that stay of a header block, `Host` lines renamed.
pub open spec fn kept_lines(lines: Seq<Seq<char>>, port: u16) -> Seq<Seq<char>>
    decreases lines.len(),
{
    if lines.len() == 0 {
        seq![]
    } else {
        let before = kept_lines(lines.drop_last(), port);
        let line = lines.last();
        if text::begins_with(line, "host:"@) {
            before.push(host_line(port))
        } else if text::begins_with(line, "content-length:"@) || text::begins_with(
            line,
            "connection:"@,
        ) {
            before
        } else {
            before.push(line)
        }
    }
}

/// The lines of a forwarded header block.
pub open spec fn new_lines(lines: Seq<Seq<char>>, body_len: nat, port: u16) -> Seq<Seq<char>> {
    kept_lines(lines, port).push(length_line(body_len)).push("Connection: close"@)
}

/// Whether no line is empty and none holds a line feed.
pub open spec fn plain_lines(lines: Seq<Seq<char>>) -> bool {
    forall|i: int|
        0 <= i < lines.len() ==> (#[trigger] lines[i]).len() > 0 && !lines[i].contains('\n')
}

/// Whether no line holds a line feed.
pub open spec fn feedless(lines: Seq<Seq<char>>) -> bool {
    forall|i: int| 0 <= i < lines.len() ==> !(#[trigger] lines[i]).contains('\n')
}

/// Joined lines with one more line behind them.
proof fn lemma_joined_push(lines: Seq<Seq<char>>, line: Seq<char>)
    requires
        lines.len() > 0,
    ensures
        joined(lines.push(line)) == joined(lines) + seq!['\r', '\n'] + line,
    decreases lines.len(),
{
    let all = lines.push(line);
    if lines.len() == 1 {
        assert(all.drop_first() == seq![line]);
        assert(joined(seq![line]) == line);
    } else {
        assert(all.drop_first() == lines.drop_first().push(line));
        lemma_joined_push(lines.drop_first(), line);
        assert(joined(all) == joined(lines) + seq!['\r', '\n'] + line);
    }
}

/// The lines of joined lines are those lines, unless the last is empty.
proof fn lemma_lines_of_joined(lines: Seq<Seq<char>>)
    requires
        lines.len() > 0,
        feedless(lines),
        lines.last().len() > 0,
    ensures
        text::text_lines(joined(lines)) == lines,
        joined(lines).len() > 0,
    decreases lines.len(),
{
    let a = lines[0];
    let s = joined(lines);
    assert(!a.contains('\n'));
    if lines.len() == 1 {
        assert forall|k: int| 0 <= k < s.len() implies s[k] != '\n' by {
            assert(a.contains(a[k]));
        }
        text::lemma_find_char(s, '\n', s.len() as int);
        assert(text::text_lines(s) == seq![s]);
        assert(lines == seq![a]);
    } else {
        let rest = lines.drop_first();
        assert forall|i: int| 0 <= i < rest.len() implies !(#[trigger] rest[i]).contains('\n') by {
            assert(rest[i] == lines[i + 1]);
        }
        lemma_lines_of_joined(rest);
        let end = a.len() as int + 1;
        assert forall|k: int| 0 <= k < end implies s[k] != '\n' by {
            if k < a.len() {
                assert(s[k] == a[k]);
                assert(a.contains(a[k]));
            }
        }
        assert(s[end] == '\n');
        text::lemma_find_char(s, '\n', end);
        assert(s.take(end) == a.push('\r'));
        assert(text::without_cr(a.push('\r')) == a) by {
            assert(a.push('\r').drop_last() == a);
        }
        assert(s.skip(end + 1) == joined(rest));
        assert(seq![a] + rest == lines);
    }
}

/// What `forwarded_lines` writes, as joined lines.
proof fn lemma_forwarded_lines(lines: Seq<Seq<char>>, port: u16)
    ensures
        http::forwarded_lines(lines, port) == (if kept_lines(lines, port).len() == 0 {
            seq![]
        } else {
            joined(kept_lines(lines, port)) + seq!['\r', '\n']
        }),
    decreases lines.len(),
{
    if lines.len() > 0 {
        let before = lines.drop_last();
        let line = lines.last();
        let kept = kept_lines(before, port);
        lemma_forwarded_lines(before, port);
        reveal_strlit("\r\n");
        assert("\r\n"@ == seq!['\r', '\n']);
        let added = if text::begins_with(line, "host:"@) {
            host_line(port)
        } else {
            line
        };
        if kept.len() > 0 {
            lemma_joined_push(kept, added);
            assert(joined(kept) + seq!['\r', '\n'] + (added + seq!['\r', '\n']) == joined(kept)
                + seq!['\r', '\n'] + added + seq!['\r', '\n']);
        } else {
            assert(kept.push(added) == seq![added]);
            assert(joined(seq![added]) == added);
        }
        assert(http::forwarded_lines(before, port) + Seq::<char>::empty() == http::forwarded_lines(
            before,
            port,
        ));
    }
}

/// A forwarded header block is its lines, joined, and a terminator.
proof fn lemma_forwarded_head(head: Seq<char>, body_len: nat, port: u16)
    ensures
        http::forwarded_head(head, body_len, port) == joined(
            new_lines(text::text_lines(head), body_len, port),
        ) + seq!['\r', '\n', '\r', '\n'],
{
    let lines = text::text_lines(head);
    let kept = kept_lines(lines, port);
    let len = length_line(body_len);
    let close = "Connection: close"@;
    lemma_forwarded_lines(lines, port);
    lemma_joined_push(kept.push(len), close);
    if kept.len() > 0 {
        lemma_joined_push(kept, len);
    } else {
        assert(kept.push(len) == seq![len]);
        assert(joined(seq![len]) == len);
    }
    reveal_strlit("\r\nConnection: close\r\n\r\n");
    reveal_strlit("Connection: close");
    assert("\r\nConnection: close\r\n\r\n"@ == seq!['\r', '\n'] + close + seq![
        '\r',
        '\n',
        '\r',
        '\n',
    ]);
    assert(http::forwarded_head(head, body_len, port) == http::forwarded_lines(lines, port) + len
        + (seq!['\r', '\n'] + close + seq!['\r', '\n', '\r', '\n']));
    assert(joined(kept.push(len).push(close)) == joined(kept.push(len)) + seq!['\r', '\n'] + close);
    assert(http::forwarded_lines(lines, port) + len == joined(kept.push(len)));
}

// ── Where a forwarded header block ends ─────────────────────────────────────

/// Whether an empty line's worth of line ends stands in `s` at `i`.
spec fn blank_at(s: Seq<char>, i: int) -> bool {
    s[i] == '\r' && s[i + 1] == '\n' && s[i + 2] == '\r' && s[i + 3] == '\n'
}

/// Lines that are not empty hold no terminator before the one that follows them.
proof fn lemma_no_early_blank(lines: Seq<Seq<char>>, i: int)
    requires
        lines.len() > 0,
        plain_lines(lines),
        0 <= i < joined(lines).len(),
    ensures
        !blank_at(joined(lines) + seq!['\r', '\n', '\r', '\n'], i),
    decreases lines.len(),
{
    let a = lines[0];
    let end = seq!['\r', '\n', '\r', '\n'];
    let h = joined(lines) + end;
    assert(a.len() > 0 && !a.contains('\n'));
    if i + 1 < a.len() {
        assert(h[i + 1] == a[i + 1]);
        assert(a.contains(a[i + 1]));
    } else if i + 1 == a.len() {
        assert(h[i + 1] == '\r');
    } else {
        let rest = lines.drop_first();
        let b = lines[1];
        assert(rest[0] == b);
        assert(b.len() > 0 && !b.contains('\n'));
        assert(plain_lines(rest)) by {
            assert forall|k: int| 0 <= k < rest.len() implies (#[trigger] rest[k]).len() > 0
                && !rest[k].contains('\n') by {
                assert(rest[k] == lines[k + 1]);
            }
        }
        let h2 = joined(rest) + end;
        assert(h == a + seq!['\r', '\n'] + h2);
        if i == a.len() {
            assert(h[i + 3] == h2[1]);
            if b.len() > 1 {
                assert(h2[1] == b[1]);
                assert(b.contains(b[1]));
            } else {
                assert(h2[1] == '\r');
            }
        } else if i == a.len() + 1 {
            assert(h[i] == '\n');
        } else {
            let j = i - a.len() - 2;
            lemma_no_early_blank(rest, j);
            assert(h[i] == h2[j] && h[i + 1] == h2[j + 1] && h[i + 2] == h2[j + 2] && h[i + 3]
                == h2[j + 3]);
        }
    }
}

/// The encoding of a character is the character alone where it is ASCII, and has no byte of
/// ASCII otherwise.
proof fn lemma_encode_scalar(c: char)
    ensures
        (c as u32) < 128 ==> encode_scalar(c as u32) == seq![c as u8] && c as u8 as int == c as int,
        (c as u32) >= 128 ==> encode_scalar(c as u32).len() > 1 && forall|i: int|
            0 <= i < encode_scalar(c as u32).len() ==> #[trigger] encode_scalar(c as u32)[i] >= 128,
{
    char_is_scalar(c);
    let v = c as u32;
    if v < 128 {
        assert((v & 0x7F) as u8 == v as u8) by (bit_vector)
            requires
                v < 128,
        ;
    } else {
        assert(0xC0u8 | ((v >> 6) & 0x1F) as u8 >= 128) by (bit_vector);
        assert(0xE0u8 | ((v >> 12) & 0x0F) as u8 >= 128) by (bit_vector);
        assert(0xF0u8 | ((v >> 18) & 0x7) as u8 >= 128) by (bit_vector);
        assert(0x80u8 | (v & 0x3F) as u8 >= 128) by (bit_vector);
        assert(0x80u8 | ((v >> 6) & 0x3F) as u8 >= 128) by (bit_vector);
        assert(0x80u8 | ((v >> 12) & 0x3F) as u8 >= 128) by (bit_vector);
    }
}

/// A run of ASCII bytes in the encoding of a text is a run of ASCII characters in the text.
proof fn lemma_ascii_run(s: Seq<char>, j: int, n: int) -> (i: int)
    requires
        0 <= j,
        0 < n,
        j + n <= encode_utf8(s).len(),
        forall|k: int| j <= k < j + n ==> #[trigger] encode_utf8(s)[k] < 128,
    ensures
        0 <= i,
        i + n <= s.len(),
        encode_utf8(s.take(i)).len() == j,
        forall|k: int| 0 <= k < n ==> (#[trigger] s[i + k]) as int == encode_utf8(s)[j + k] as int,
    decreases s.len(), n,
{
    let enc = encode_utf8(s);
    assert(s.len() > 0);
    let first = encode_scalar(s[0] as u32);
    let rest = encode_utf8(s.drop_first());
    assert(enc == first + rest);
    lemma_encode_scalar(s[0]);
    let w = first.len() as int;
    if j == 0 {
        assert(enc[0] < 128);
        assert(first[0] == enc[0]);
        assert(w == 1);
        assert(s.take(0) == Seq::<char>::empty());
        assert(s[0] as int == enc[0] as int);
        if n > 1 {
            assert forall|k: int| 0 <= k < n - 1 implies #[trigger] rest[k] < 128 by {
                assert(enc[k + 1] == rest[k]);
            }
            let i2 = lemma_ascii_run(s.drop_first(), 0, n - 1);
            assert(i2 == 0) by {
                if i2 > 0 {
                    lemma_encode_scalar(s.drop_first().take(i2)[0]);
                }
            }
            assert forall|k: int| 0 <= k < n implies (#[trigger] s[k]) as int == enc[k] as int by {
                if k > 0 {
                    assert(s.drop_first()[i2 + (k - 1)] as int == rest[0 + (k - 1)] as int);
                    assert(s.drop_first()[k - 1] == s[k]);
                }
            }
        }
        0
    } else {
        assert(j >= w) by {
            if j < w {
                assert(enc[j] == first[j]);
            }
        }
        assert forall|k: int| j - w <= k < j - w + n implies #[trigger] rest[k] < 128 by {
            assert(enc[k + w] == rest[k]);
        }
        let i2 = lemma_ascii_run(s.drop_first(), j - w, n);
        let i = i2 + 1;
        assert(s.take(i).drop_first() == s.drop_first().take(i2));
        assert(s.take(i)[0] == s[0]);
        assert(encode_utf8(s.take(i)) == first + encode_utf8(s.drop_first().take(i2)));
        assert forall|k: int| 0 <= k < n implies (#[trigger] s[i + k]) as int == enc[j + k]
            as int by {
            assert(s.drop_first()[i2 + k] as int == rest[j - w + k] as int);
        }
        i
    }
}

/// The encoding of two texts is that of the one and that of the other.
proof fn lemma_encode_concat(a: Seq<char>, b: Seq<char>)
    ensures
        encode_utf8(a + b) == encode_utf8(a) + encode_utf8(b),
    decreases a.len(),
{
    if a.len() == 0 {
        assert(a + b == b);
        assert(encode_utf8(a) + encode_utf8(b) == encode_utf8(b));
    } else {
        lemma_encode_concat(a.drop_first(), b);
        assert((a + b).drop_first() == a.drop_first() + b);
        assert((a + b)[0] == a[0]);
        assert(encode_scalar(a[0] as u32) + (encode_utf8(a.drop_first()) + encode_utf8(b))
            == encode_scalar(a[0] as u32) + encode_utf8(a.drop_first()) + encode_utf8(b));
    }
}

/// The header block of joined lines and a terminator ends where the terminator stands.
proof fn lemma_header_end_of_joined(lines: Seq<Seq<char>>, body: Seq<u8>)
    requires
        lines.len() > 0,
        plain_lines(lines),
    ensures
        ({
            let head = encode_utf8(joined(lines));
            let out = encode_utf8(joined(lines) + seq!['\r', '\n', '\r', '\n']) + body;
            &&& http::header_end(out) == head.len()
            &&& head.len() + 4 <= out.len()
            &&& out.take(head.len() as int) == head
            &&& out.skip(head.len() as int + 4) == body
        }),
{
    let t = joined(lines);
    let end = seq!['\r', '\n', '\r', '\n'];
    let head = encode_utf8(t);
    let whole = encode_utf8(t + end);
    let out = whole + body;
    lemma_encode_concat(t, end);
    is_ascii_chars_encode_utf8(end);
    assert(encode_utf8(end) =~= http::terminator()) by {
        let e = encode_utf8(end);
        assert(end[0] as u8 == e[0] && end[1] as u8 == e[1] && end[2] as u8 == e[2] && end[3] as u8
            == e[3]);
    }
    let n = head.len() as int;
    assert(out.subrange(n, n + 4) == http::terminator());
    assert forall|k: int| 0 <= k < n implies !text::stands_at(out, http::terminator(), k) by {
        if text::stands_at(out, http::terminator(), k) {
            let p = out.subrange(k, k + 4);
            assert(p[0] == 13 && p[1] == 10 && p[2] == 13 && p[3] == 10);
            assert forall|m: int| k <= m < k + 4 implies #[trigger] whole[m] < 128 by {
                assert(whole[m] == out[m]);
                assert(out[m] == p[m - k]);
            }
            let i = lemma_ascii_run(t + end, k, 4);
            let h = t + end;
            assert(h[i + 0] as int == whole[k + 0] as int);
            assert(h[i + 1] as int == whole[k + 1] as int);
            assert(h[i + 2] as int == whole[k + 2] as int);
            assert(h[i + 3] as int == whole[k + 3] as int);
            assert(whole[k] == p[0] && whole[k + 1] == p[1] && whole[k + 2] == p[2] && whole[k + 3]
                == p[3]);
            assert(blank_at(h, i));
            if i < t.len() {
                lemma_no_early_blank(lines, i);
            } else {
                assert(i == t.len());
                assert(h.take(i) == t);
            }
        }
    }
    http::lemma_header_end(out, n);
    assert(out.take(n) == head);
    assert(out.skip(n + 4) == body);
}

// ── What the lines of a forwarded header block say ──────────────────────────

/// No line of a text holds a line feed.
proof fn lemma_lines_hold_no_feed(s: Seq<char>)
    ensures
        forall|i: int|
            0 <= i < text::text_lines(s).len() ==> !(#[trigger] text::text_lines(s)[i]).contains(
                '\n',
            ),
    decreases s.len(),
{
    let end = text::find_char(s, '\n') as int;
    lemma_found_char(s, '\n');
    if s.len() > 0 && end < s.len() {
        let rest = s.skip(end + 1);
        lemma_lines_hold_no_feed(rest);
        let first = text::without_cr(s.take(end));
        assert(!first.contains('\n')) by {
            if first.contains('\n') {
                let k = choose|k: int| 0 <= k < first.len() && first[k] == '\n';
                assert(s[k] == '\n');
            }
        }
        let lines = seq![first] + text::text_lines(rest);
        assert forall|i: int| 0 <= i < lines.len() implies !(#[trigger] lines[i]).contains(
            '\n',
        ) by {
            if i > 0 {
                assert(lines[i] == text::text_lines(rest)[i - 1]);
            }
        }
    } else if s.len() > 0 {
        assert(!s.contains('\n'));
    }
}

/// Before the place that `find_char` gives, the character does not stand.
proof fn lemma_found_char(s: Seq<char>, c: char)
    ensures
        text::find_char(s, c) <= s.len(),
        forall|k: int| 0 <= k < text::find_char(s, c) ==> s[k] != c,
    decreases s.len(),
{
    if s.len() > 0 && s[0] != c {
        lemma_found_char(s.drop_first(), c);
        assert forall|k: int| 0 <= k < text::find_char(s, c) implies s[k] != c by {
            if k > 0 {
                assert(s[k] == s.drop_first()[k - 1]);
            }
        }
    }
}

/// A number behind a text without line feeds makes a line of its own.
proof fn lemma_numbered_line(label: Seq<char>, n: nat)
    requires
        label.len() > 0,
        !label.contains('\n'),
    ensures
        (label + text::decimal(n)).len() > 0,
        !(label + text::decimal(n)).contains('\n'),
{
    text::lemma_decimal(n);
    let s = label + text::decimal(n);
    if s.contains('\n') {
        let k = choose|k: int| 0 <= k < s.len() && s[k] == '\n';
        if k < label.len() {
            assert(label[k] == '\n');
        } else {
            assert(text::is_digit(text::decimal(n)[k - label.len()]));
        }
    }
}

/// The `Host` line that the proxy writes is a `Host` line.
proof fn lemma_host_line(port: u16)
    ensures
        host_line(port).len() > 0,
        !host_line(port).contains('\n'),
        text::begins_with(host_line(port), "host:"@),
        !text::begins_with(host_line(port), "content-length:"@),
        !text::begins_with(host_line(port), "connection:"@),
{
    reveal_strlit("Host: 127.0.0.1:");
    reveal_strlit("host:");
    reveal_strlit("content-length:");
    reveal_strlit("connection:");
    lemma_numbered_line("Host: 127.0.0.1:"@, port as nat);
    let s = host_line(port);
    assert(s[0] == 'H' && s[1] == 'o' && s[2] == 's' && s[3] == 't' && s[4] == ':');
    assert(text::ascii_lower(s[0]) == 'h');
    assert("content-length:"@[0] == 'c' && "connection:"@[0] == 'c');
}

/// The `Content-Length` line that the proxy writes declares its number, where that is a length.
proof fn lemma_length_line(n: nat)
    ensures
        length_line(n).len() > 0,
        !length_line(n).contains('\n'),
        !text::begins_with(length_line(n), "host:"@),
        text::begins_with(length_line(n), "content-length:"@),
        n <= usize::MAX ==> http::length_field(length_line(n)) == Some(n),
{
    reveal_strlit("Content-Length: ");
    reveal_strlit("content-length:");
    reveal_strlit("host:");
    lemma_numbered_line("Content-Length: "@, n);
    let s = length_line(n);
    let label = "Content-Length: "@;
    assert forall|i: int| 0 <= i < 15 implies text::ascii_lower(#[trigger] s[i])
        == "content-length:"@[i] by {
        assert(s[i] == label[i]);
    }
    assert(text::ascii_lower(s[0]) == 'c');
    assert("host:"@[0] == 'h');
    let value = s.skip(15);
    let d = text::decimal(n);
    text::lemma_decimal(n);
    if n <= usize::MAX {
        text::law_decimal_reads_back(n, usize::MAX as nat);
    }
    assert(value == seq![' '] + d);
    assert(value.drop_first() == d);
    assert(text::is_digit(d[0]) && text::is_digit(d[d.len() - 1]));
    assert(text::trim_start(d) == d);
    assert(text::trim_start(value) == d);
    assert(text::trim_end(d) == d);
}

/// The `Connection` line that the proxy writes is a `Connection` line.
proof fn lemma_close_line()
    ensures
        "Connection: close"@.len() > 0,
        !"Connection: close"@.contains('\n'),
        !text::begins_with("Connection: close"@, "host:"@),
        !text::begins_with("Connection: close"@, "content-length:"@),
        text::begins_with("Connection: close"@, "connection:"@),
{
    reveal_strlit("Connection: close");
    reveal_strlit("content-length:");
    reveal_strlit("connection:");
    reveal_strlit("host:");
    let s = "Connection: close"@;
    let p = "connection:"@;
    assert(text::ascii_lower(s[0]) == 'c' && "host:"@[0] == 'h');
    assert(text::ascii_lower(s[3]) == 'n' && "content-length:"@[3] == 't');
    assert forall|i: int| 0 <= i < p.len() implies text::ascii_lower(#[trigger] s[i]) == p[i] by {}
}

/// What holds of the lines that stay.
proof fn lemma_kept_lines(lines: Seq<Seq<char>>, port: u16)
    requires
        feedless(lines),
    ensures
        feedless(kept_lines(lines, port)),
        plain_lines(lines) ==> plain_lines(kept_lines(lines, port)),
        forall|i: int|
            0 <= i < kept_lines(lines, port).len() ==> {
                let line = #[trigger] kept_lines(lines, port)[i];
                &&& !text::begins_with(line, "content-length:"@)
                &&& !text::begins_with(line, "connection:"@)
                &&& text::begins_with(line, "host:"@) ==> line == host_line(port)
            },
        kept_lines(kept_lines(lines, port), port) == kept_lines(lines, port),
    decreases lines.len(),
{
    lemma_host_line(port);
    if lines.len() > 0 {
        let before = lines.drop_last();
        let line = lines.last();
        assert(line == lines[lines.len() - 1]);
        assert forall|i: int| 0 <= i < before.len() implies !(#[trigger] before[i]).contains(
            '\n',
        ) && (plain_lines(lines) ==> before[i].len() > 0) by {
            assert(before[i] == lines[i]);
        }
        lemma_kept_lines(before, port);
        let kept = kept_lines(lines, port);
        let kept_before = kept_lines(before, port);
        if kept.len() > kept_before.len() {
            assert(kept.drop_last() == kept_before);
            assert(kept == kept_before.push(kept.last()));
        }
    }
}

/// The first line stays where it is no header line that the proxy writes itself.
proof fn lemma_first_line_stays(lines: Seq<Seq<char>>, port: u16)
    requires
        lines.len() > 0,
        !text::begins_with(lines[0], "host:"@),
        !text::begins_with(lines[0], "content-length:"@),
        !text::begins_with(lines[0], "connection:"@),
    ensures
        kept_lines(lines, port).len() > 0,
        kept_lines(lines, port)[0] == lines[0],
    decreases lines.len(),
{
    let before = lines.drop_last();
    if lines.len() > 1 {
        assert(before[0] == lines[0]);
        lemma_first_line_stays(before, port);
    } else {
        assert(lines.last() == lines[0]);
        assert(kept_lines(before, port).len() == 0);
    }
}

/// Lines that declare no length leave it to the next line.
proof fn lemma_declared_by(lines: Seq<Seq<char>>, line: Seq<char>, more: Seq<Seq<char>>)
    requires
        forall|i: int| 0 <= i < lines.len() ==> http::length_field(#[trigger] lines[i]) is None,
        http::length_field(line) is Some,
    ensures
        http::declared_length(lines + seq![line] + more) == http::length_field(line)->0,
    decreases lines.len(),
{
    let all = lines + seq![line] + more;
    if lines.len() == 0 {
        assert(all[0] == line);
    } else {
        assert(all[0] == lines[0]);
        assert(all.drop_first() == lines.drop_first() + seq![line] + more);
        assert forall|i: int| 0 <= i < lines.drop_first().len() implies http::length_field(
            #[trigger] lines.drop_first()[i],
        ) is None by {
            assert(lines.drop_first()[i] == lines[i + 1]);
        }
        lemma_declared_by(lines.drop_first(), line, more);
    }
}

// ── The laws ────────────────────────────────────────────────────────────────

/// Whether a header block is one that a forwarded request can be read back from: it has a first
/// line that is no header line of the proxy's own, and no empty line within it.
pub open spec fn forwardable(head: Seq<char>) -> bool {
    let lines = text::text_lines(head);
    &&& lines.len() > 0
    &&& forall|i: int| 0 <= i < lines.len() ==> (#[trigger] lines[i]).len() > 0
    &&& !text::begins_with(lines[0], "host:"@)
    &&& !text::begins_with(lines[0], "content-length:"@)
    &&& !text::begins_with(lines[0], "connection:"@)
}

/// A forwarded request reads back as what was forwarded. Its header block ends where the body
/// begins, the body is unchanged, the method and the path are those of the request that came in,
/// and the declared length is that of the body. The lines of the header block are those that
/// stay, one length line and one line that closes the connection.
pub proof fn law_forwarded_reads_back(head: Seq<char>, body: Seq<u8>, port: u16)
    requires
        forwardable(head),
        body.len() <= usize::MAX,
    ensures
        ({
            let out = http::forwarded(head, body, port);
            let end = http::header_end(out) as int;
            let new_head = decode_utf8(out.take(end));
            &&& end + 4 <= out.len()
            &&& out.skip(end + 4) == body
            &&& valid_utf8(out.take(end))
            &&& text::text_lines(new_head) == new_lines(text::text_lines(head), body.len(), port)
            &&& http::head_of(new_head) == (http::HeadView {
                content_length: body.len(),
                ..http::head_of(head)
            })
        }),
{
    let lines = text::text_lines(head);
    let n = body.len();
    let new = new_lines(lines, n, port);
    let kept = kept_lines(lines, port);
    lemma_new_lines(head, n, port);
    lemma_forwarded_head(head, n, port);
    lemma_header_end_of_joined(new, body);
    lemma_lines_of_joined(new);
    encode_utf8_valid_utf8(joined(new));
    encode_utf8_decode_utf8(joined(new));
    lemma_first_line_stays(lines, port);
    assert(new[0] == lines[0]);
    lemma_length_line(n);
    assert(new.drop_first() == kept.drop_first() + seq![length_line(n)] + seq![
        "Connection: close"@,
    ]);
    assert forall|i: int| 0 <= i < kept.drop_first().len() implies http::length_field(
        #[trigger] kept.drop_first()[i],
    ) is None by {
        assert(kept.drop_first()[i] == kept[i + 1]);
    }
    lemma_declared_by(kept.drop_first(), length_line(n), seq!["Connection: close"@]);
}

/// Forwarding a request that was forwarded before, to the same port, changes nothing: its header
/// block taken from what stands before the terminator and the body.
pub proof fn law_forwarding_again_changes_nothing(head: Seq<char>, body: Seq<u8>, port: u16)
    ensures
        ({
            let out = http::forwarded(head, body, port);
            let end = out.len() - body.len() - 4;
            &&& end >= 0
            &&& out.skip(end + 4) == body
            &&& valid_utf8(out.take(end))
            &&& http::forwarded(decode_utf8(out.take(end)), out.skip(end + 4), port) == out
        }),
{
    let lines = text::text_lines(head);
    let n = body.len();
    let new = new_lines(lines, n, port);
    let kept = kept_lines(lines, port);
    let terminator = seq!['\r', '\n', '\r', '\n'];
    let out = http::forwarded(head, body, port);
    lemma_new_lines(head, n, port);
    lemma_forwarded_head(head, n, port);
    lemma_encode_concat(joined(new), terminator);
    is_ascii_chars_encode_utf8(terminator);
    let new_head = encode_utf8(joined(new));
    let end = new_head.len() as int;
    assert(out == new_head + encode_utf8(terminator) + body);
    assert(out.take(end) == new_head);
    assert(out.skip(end + 4) == body);
    encode_utf8_valid_utf8(joined(new));
    encode_utf8_decode_utf8(joined(new));
    lemma_close_line();
    lemma_lines_of_joined(new);
    lemma_length_line(n);
    let with_length = kept.push(length_line(n));
    assert(new.drop_last() == with_length);
    assert(with_length.drop_last() == kept);
    assert(kept_lines(with_length, port) == kept_lines(kept, port));
    assert(kept_lines(new, port) == kept_lines(with_length, port));
    lemma_forwarded_head(joined(new), n, port);
}

/// The lines of a forwarded header block are lines, and whole lines where it can be read back.
proof fn lemma_new_lines(head: Seq<char>, n: nat, port: u16)
    ensures
        feedless(new_lines(text::text_lines(head), n, port)),
        forwardable(head) ==> plain_lines(new_lines(text::text_lines(head), n, port)),
        ({
            let kept = kept_lines(text::text_lines(head), port);
            &&& kept_lines(kept, port) == kept
            &&& forall|i: int|
                0 <= i < kept.len() ==> !text::begins_with(
                    #[trigger] kept[i],
                    "content-length:"@,
                )
        }),
{
    let lines = text::text_lines(head);
    lemma_lines_hold_no_feed(head);
    lemma_kept_lines(lines, port);
    lemma_length_line(n);
    lemma_close_line();
    let kept = kept_lines(lines, port);
    let new = new_lines(lines, n, port);
    assert(forwardable(head) ==> plain_lines(lines));
    assert forall|i: int| 0 <= i < new.len() implies !(#[trigger] new[i]).contains('\n') && (
    forwardable(head) ==> new[i].len() > 0) by {
        if i < kept.len() {
            assert(new[i] == kept[i]);
        } else if i == kept.len() {
            assert(new[i] == length_line(n));
        } else {
            assert(new[i] == "Connection: close"@);
        }
    }
}

// ── Answers ─────────────────────────────────────────────────────────────────

/// The lines of the header block of an answer.
pub open spec fn answer_lines(status: u16, len: nat) -> Seq<Seq<char>> {
    seq![
        "HTTP/1.1 "@ + http::status_text(status),
        "Content-Type: application/json"@,
        length_line(len),
        "Connection: close"@,
    ]
}

proof fn lemma_status_line(status: u16)
    ensures
        ("HTTP/1.1 "@ + http::status_text(status)).len() > 0,
        !("HTTP/1.1 "@ + http::status_text(status)).contains('\n'),
{
    reveal_strlit("HTTP/1.1 ");
    reveal_strlit("200 OK");
    reveal_strlit("400 Bad Request");
    reveal_strlit("404 Not Found");
    reveal_strlit("502 Bad Gateway");
    reveal_strlit("503 Service Unavailable");
    reveal_strlit("500 Internal Server Error");
    let a = "HTTP/1.1 "@;
    let b = http::status_text(status);
    assert(!a.contains('\n'));
    assert(!b.contains('\n'));
    let s = a + b;
    if s.contains('\n') {
        let k = choose|k: int| 0 <= k < s.len() && s[k] == '\n';
        if k < a.len() {
            assert(a[k] == '\n');
        } else {
            assert(b[k - a.len()] == '\n');
        }
    }
}

/// The header block of an answer is its lines, joined, and a terminator.
proof fn lemma_answer_head(status: u16, len: nat)
    ensures
        http::answer_head(status, len) == joined(answer_lines(status, len)) + seq![
            '\r',
            '\n',
            '\r',
            '\n',
        ],
{
    let lines = answer_lines(status, len);
    let crlf = seq!['\r', '\n'];
    let rest1 = lines.drop_first();
    let rest2 = rest1.drop_first();
    let rest3 = rest2.drop_first();
    assert(rest1[0] == lines[1] && rest2[0] == lines[2] && rest3[0] == lines[3]);
    assert(joined(rest3) == lines[3]);
    assert(joined(rest2) == lines[2] + crlf + lines[3]);
    assert(joined(rest1) == lines[1] + crlf + (lines[2] + crlf + lines[3]));
    reveal_strlit("\r\nContent-Type: application/json\r\nContent-Length: ");
    reveal_strlit("Content-Type: application/json");
    reveal_strlit("Content-Length: ");
    reveal_strlit("\r\nConnection: close\r\n\r\n");
    reveal_strlit("Connection: close");
    assert("\r\nContent-Type: application/json\r\nContent-Length: "@ == crlf + lines[1] + crlf
        + "Content-Length: "@);
    assert("\r\nConnection: close\r\n\r\n"@ == crlf + lines[3] + crlf + crlf);
    assert(http::answer_head(status, len) == lines[0] + (crlf + lines[1] + crlf
        + "Content-Length: "@) + text::decimal(len) + (crlf + lines[3] + crlf + crlf));
    assert(joined(lines) + seq!['\r', '\n', '\r', '\n'] == lines[0] + crlf + (lines[1] + crlf + (
    lines[2] + crlf + lines[3])) + (crlf + crlf));
}

/// An answer reads back as what was answered: its header block ends where the text begins, and
/// declares the length of the text.
pub proof fn law_answer_reads_back(status: u16, body: Seq<char>)
    requires
        encode_utf8(body).len() <= usize::MAX,
    ensures
        ({
            let out = http::answer(status, body);
            let end = http::header_end(out) as int;
            let head = decode_utf8(out.take(end));
            &&& end + 4 <= out.len()
            &&& out.skip(end + 4) == encode_utf8(body)
            &&& valid_utf8(out.take(end))
            &&& text::text_lines(head) == answer_lines(status, encode_utf8(body).len())
            &&& http::head_of(head).content_length == encode_utf8(body).len()
        }),
{
    let n = encode_utf8(body).len();
    let lines = answer_lines(status, n);
    lemma_status_line(status);
    lemma_length_line(n);
    lemma_close_line();
    reveal_strlit("Content-Type: application/json");
    reveal_strlit("content-length:");
    assert(!"Content-Type: application/json"@.contains('\n'));
    assert(plain_lines(lines)) by {
        assert forall|i: int| 0 <= i < lines.len() implies (#[trigger] lines[i]).len() > 0
            && !lines[i].contains('\n') by {
            assert(i == 0 || i == 1 || i == 2 || i == 3);
        }
    }
    lemma_answer_head(status, n);
    lemma_encode_concat(http::answer_head(status, n), body);
    lemma_header_end_of_joined(lines, encode_utf8(body));
    lemma_lines_of_joined(lines);
    encode_utf8_valid_utf8(joined(lines));
    encode_utf8_decode_utf8(joined(lines));
    assert(text::ascii_lower("Content-Type: application/json"@[8]) == 't');
    assert("content-length:"@[8] == 'l');
    assert(http::length_field(lines[1]) is None);
    assert(lines.drop_first() == seq![lines[1]] + seq![lines[2]] + seq![lines[3]]);
    lemma_declared_by(seq![lines[1]], lines[2], seq![lines[3]]);
}

// ── What a forwarded request says, line by line ─────────────────────────────

/// The lines that stay, in closed form: those that are neither length nor connection lines, the
/// `Host` lines among them naming the model server.
proof fn lemma_kept_in_closed_form(lines: Seq<Seq<char>>, port: u16)
    ensures
        kept_lines(lines, port) == lines.filter(
            |l: Seq<char>|
                !text::begins_with(l, "content-length:"@) && !text::begins_with(
                    l,
                    "connection:"@,
                ),
        ).map_values(
            |l: Seq<char>|
                if text::begins_with(l, "host:"@) {
                    "Host: 127.0.0.1:"@ + text::decimal(port as nat)
                } else {
                    l
                },
        ),
        kept_lines(lines, port).filter(
            |l: Seq<char>|
                !text::begins_with(l, "host:"@) && !text::begins_with(l, "content-length:"@)
                    && !text::begins_with(l, "connection:"@),
        ) == lines.filter(
            |l: Seq<char>|
                !text::begins_with(l, "host:"@) && !text::begins_with(l, "content-length:"@)
                    && !text::begins_with(l, "connection:"@),
        ),
    decreases lines.len(),
{
    reveal(Seq::filter);
    let stays = |l: Seq<char>|
        !text::begins_with(l, "content-length:"@) && !text::begins_with(l, "connection:"@);
    let passed = |l: Seq<char>|
        !text::begins_with(l, "host:"@) && !text::begins_with(l, "content-length:"@)
            && !text::begins_with(l, "connection:"@);
    let renamed = |l: Seq<char>|
        if text::begins_with(l, "host:"@) {
            "Host: 127.0.0.1:"@ + text::decimal(port as nat)
        } else {
            l
        };
    if lines.len() == 0 {
        assert(lines.filter(stays).map_values(renamed) =~= Seq::<Seq<char>>::empty());
        assert(kept_lines(lines, port).filter(passed) =~= lines.filter(passed));
    } else {
        let before = lines.drop_last();
        let line = lines.last();
        lemma_kept_in_closed_form(before, port);
        lemma_host_line(port);
        lemma_name_is_one(line);
        let kept = kept_lines(before, port);
        let all = kept_lines(lines, port);
        if text::begins_with(line, "host:"@) {
            assert(all.drop_last() == kept && all.last() == host_line(port));
            assert(before.filter(stays).push(line).map_values(renamed) =~= before.filter(
                stays,
            ).map_values(renamed).push(host_line(port)));
        } else if stays(line) {
            assert(all.drop_last() == kept && all.last() == line);
            assert(before.filter(stays).push(line).map_values(renamed) =~= before.filter(
                stays,
            ).map_values(renamed).push(line));
        }
    }
}

/// A line that begins with one of the three names begins with no other.
proof fn lemma_name_is_one(line: Seq<char>)
    ensures
        text::begins_with(line, "host:"@) ==> !text::begins_with(line, "content-length:"@)
            && !text::begins_with(line, "connection:"@),
{
    reveal_strlit("host:");
    reveal_strlit("content-length:");
    reveal_strlit("connection:");
    if text::begins_with(line, "host:"@) {
        assert(text::ascii_lower(line[0]) == "host:"@[0]);
        assert("content-length:"@[0] == 'c' && "connection:"@[0] == 'c');
        assert("content-length:"@.len() > 0 && "connection:"@.len() > 0);
        if text::begins_with(line, "content-length:"@) {
            assert(text::ascii_lower(line[0]) == "content-length:"@[0]);
        }
        if text::begins_with(line, "connection:"@) {
            assert(text::ascii_lower(line[0]) == "connection:"@[0]);
        }
    }
}

/// A request is passed on line by line. Every line of its header block that is no `Host`,
/// `Content-Length` or `Connection` line goes out as it came in, and in the same order. Each `Host`
/// line names the model server instead, the other two go, and at the end stand one line with the
/// length of the body and one that closes the connection. An empty line and the body follow, the
/// body unchanged.
pub proof fn law_every_other_line_is_passed_on(head: Seq<char>, body: Seq<u8>, port: u16)
    ensures
        ({
            let out = http::forwarded(head, body, port);
            let end = out.len() - body.len() - 4;
            let came = text::text_lines(head);
            let went = text::text_lines(decode_utf8(out.take(end)));
            let passed = |l: Seq<char>|
                !text::begins_with(l, "host:"@) && !text::begins_with(l, "content-length:"@)
                    && !text::begins_with(l, "connection:"@);
            let stays = |l: Seq<char>|
                !text::begins_with(l, "content-length:"@) && !text::begins_with(
                    l,
                    "connection:"@,
                );
            &&& end >= 0
            &&& valid_utf8(out.take(end))
            &&& out.subrange(end, end + 4) == seq![13u8, 10, 13, 10]
            &&& out.skip(end + 4) == body
            &&& went.filter(passed) == came.filter(passed)
            &&& went == came.filter(stays).map_values(
                |l: Seq<char>|
                    if text::begins_with(l, "host:"@) {
                        "Host: 127.0.0.1:"@ + text::decimal(port as nat)
                    } else {
                        l
                    },
            ).push("Content-Length: "@ + text::decimal(body.len())).push("Connection: close"@)
        }),
{
    let lines = text::text_lines(head);
    let n = body.len();
    let new = new_lines(lines, n, port);
    let kept = kept_lines(lines, port);
    let terminator = seq!['\r', '\n', '\r', '\n'];
    let out = http::forwarded(head, body, port);
    let passed = |l: Seq<char>|
        !text::begins_with(l, "host:"@) && !text::begins_with(l, "content-length:"@)
            && !text::begins_with(l, "connection:"@);
    lemma_new_lines(head, n, port);
    lemma_forwarded_head(head, n, port);
    lemma_encode_concat(joined(new), terminator);
    is_ascii_chars_encode_utf8(terminator);
    let e = encode_utf8(terminator);
    assert(e =~= seq![13u8, 10, 13, 10]) by {
        assert(terminator[0] as u8 == e[0] && terminator[1] as u8 == e[1] && terminator[2] as u8
            == e[2] && terminator[3] as u8 == e[3]);
    }
    let new_head = encode_utf8(joined(new));
    let end = new_head.len() as int;
    assert(out == new_head + e + body);
    assert(out.take(end) == new_head);
    assert(out.subrange(end, end + 4) == e);
    assert(out.skip(end + 4) == body);
    encode_utf8_valid_utf8(joined(new));
    encode_utf8_decode_utf8(joined(new));
    lemma_close_line();
    lemma_lines_of_joined(new);
    lemma_length_line(n);
    lemma_kept_in_closed_form(lines, port);
    let with_length = kept.push(length_line(n));
    assert(new.drop_last() == with_length && with_length.drop_last() == kept);
    assert(new.filter(passed) == kept.filter(passed)) by {
        reveal(Seq::filter);
        assert(with_length.filter(passed) == kept.filter(passed));
    }
}

// ── Where a header block ends and what it says ──────────────────────────────

/// A header block ends at the first empty line, and a text without one is all header block.
pub proof fn law_header_ends_at_the_first_empty_line(a: Seq<u8>, b: Seq<u8>)
    ensures
        ({
            let all = a + seq![13u8, 10, 13, 10] + b;
            (forall|k: int|
                0 <= k < a.len() ==> #[trigger] all.subrange(k, k + 4) != seq![13u8, 10, 13, 10])
                ==> http::header_end(all) == a.len()
        }),
        (forall|k: int|
            0 <= k <= a.len() - 4 ==> #[trigger] a.subrange(k, k + 4) != seq![13u8, 10, 13, 10])
            ==> http::header_end(a) == a.len(),
{
    let t = http::terminator();
    let all = a + seq![13u8, 10, 13, 10] + b;
    if forall|k: int|
        0 <= k < a.len() ==> #[trigger] all.subrange(k, k + 4) != seq![13u8, 10, 13, 10] {
        assert forall|k: int| 0 <= k < a.len() implies !text::stands_at(all, t, k) by {
            assert(all.subrange(k, k + 4) != seq![13u8, 10, 13, 10]);
        }
        assert(all.subrange(a.len() as int, a.len() as int + 4) == seq![13u8, 10, 13, 10]);
        assert(text::stands_at(all, t, a.len() as int));
        http::lemma_header_end(all, a.len() as int);
    }
    if forall|k: int|
        0 <= k <= a.len() - 4 ==> #[trigger] a.subrange(k, k + 4) != seq![13u8, 10, 13, 10] {
        assert forall|k: int| 0 <= k < a.len() implies !text::stands_at(a, t, k) by {
            if k <= a.len() - 4 {
                assert(a.subrange(k, k + 4) != seq![13u8, 10, 13, 10]);
            }
        }
        http::lemma_header_end(a, a.len() as int);
    }
}

/// The first two words of the first line are the method and the path; a missing method is empty,
/// and a missing path is the root.
pub proof fn law_first_line_names_method_and_path(head: Seq<char>)
    ensures
        ({
            let lines = text::text_lines(head);
            let words = if lines.len() > 0 {
                text::words(lines[0])
            } else {
                seq![]
            };
            &&& words.len() > 0 ==> http::head_of(head).method == words[0]
            &&& words.len() > 1 ==> http::head_of(head).path == words[1]
            &&& words.len() == 0 ==> http::head_of(head).method.len() == 0
            &&& words.len() < 2 ==> http::head_of(head).path == seq!['/']
            &&& lines.len() == 0 ==> http::head_of(head).content_length == 0
        }),
{
    reveal_strlit("/");
    assert("/"@ =~= seq!['/']);
}

/// The first line behind the first that declares a length of the body declares it, and only a
/// `Content-Length` line with a number does; without one the body is empty.
pub proof fn law_first_declared_length_counts(head: Seq<char>, i: int)
    requires
        1 <= i <= text::text_lines(head).len(),
        forall|j: int|
            1 <= j < i ==> !declares_length(#[trigger] text::text_lines(head)[j]),
    ensures
        i == text::text_lines(head).len() ==> http::head_of(head).content_length == 0,
        i < text::text_lines(head).len() && declares_length(text::text_lines(head)[i]) ==> Some(
            http::head_of(head).content_length,
        ) == text::unsigned(text::trim(text::text_lines(head)[i].skip(15)), usize::MAX as nat),
{
    let lines = text::text_lines(head);
    reveal_strlit("content-length:");
    assert forall|j: int| 1 <= j < i implies http::length_field(#[trigger] lines[j]) is None by {
        assert(!declares_length(lines[j]));
    }
    lemma_first_length(lines.drop_first(), i - 1);
}

/// Whether a line declares a length: a `Content-Length` line with a number.
pub open spec fn declares_length(line: Seq<char>) -> bool {
    text::begins_with(line, "content-length:"@) && text::unsigned(
        text::trim(line.skip(15)),
        usize::MAX as nat,
    ) is Some
}

/// The first line that declares a length counts.
proof fn lemma_first_length(lines: Seq<Seq<char>>, i: int)
    requires
        0 <= i <= lines.len(),
        forall|j: int| 0 <= j < i ==> http::length_field(#[trigger] lines[j]) is None,
    ensures
        i == lines.len() ==> http::declared_length(lines) == 0,
        i < lines.len() && http::length_field(lines[i]) is Some ==> http::declared_length(lines)
            == http::length_field(lines[i])->0,
    decreases lines.len(),
{
    if i > 0 {
        assert(http::length_field(lines[0]) is None);
        let rest = lines.drop_first();
        assert forall|j: int| 0 <= j < i - 1 implies http::length_field(#[trigger] rest[j]) is None by {
            assert(rest[j] == lines[j + 1]);
        }
        lemma_first_length(rest, i - 1);
    }
}

/// An answer is five things in a row: the line with its status, the type of its body, the length
/// of it, the line that closes the connection, and behind an empty line the body.
pub proof fn law_answer_says_its_status(status: u16, body: Seq<char>)
    ensures
        ({
            let out = http::answer(status, body);
            let length = text::decimal(encode_utf8(body).len());
            let line = if status == 200 {
                "200 OK"@
            } else if status == 400 {
                "400 Bad Request"@
            } else if status == 404 {
                "404 Not Found"@
            } else if status == 502 {
                "502 Bad Gateway"@
            } else if status == 503 {
                "503 Service Unavailable"@
            } else {
                "500 Internal Server Error"@
            };
            out == encode_utf8(
                "HTTP/1.1 "@ + line
                    + "\r\nContent-Type: application/json\r\nContent-Length: "@ + length
                    + "\r\nConnection: close\r\n\r\n"@ + body,
            )
        }),
{
}

} // verus!
