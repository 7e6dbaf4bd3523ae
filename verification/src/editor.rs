//! Text-editor decisions: numbering a file for viewing (with the shared
//! 10 000-byte cap), first-occurrence replacement, and the result texts. The
//! file reads and writes themselves are the embedding program's.

use vstd::prelude::*;

use crate::shell::{spec_truncated, truncate_stream};
use crate::text::{contains_seq, match_at};

verus! {

/// Split on every newline byte, growing the current segment bytewise.
pub open spec fn lines_acc(rem: Seq<u8>, cur: Seq<u8>) -> Seq<Seq<u8>>
    decreases rem.len(),
{
    if rem.len() == 0 {
        seq![cur]
    } else if rem[0] == 10 {
        seq![cur] + lines_acc(rem.subrange(1, rem.len() as int), Seq::empty())
    } else {
        lines_acc(rem.subrange(1, rem.len() as int), cur.push(rem[0]))
    }
}

/// A trailing carriage return falls away.
pub open spec fn strip_cr(l: Seq<u8>) -> Seq<u8> {
    if l.len() > 0 && l.last() == 13 {
        l.drop_last()
    } else {
        l
    }
}

/// The lines of a text: split at newlines, a final newline ends the last
/// line rather than opening an empty one, and each line loses a trailing
/// carriage return.
pub open spec fn text_lines(b: Seq<u8>) -> Seq<Seq<u8>> {
    if b.len() == 0 {
        Seq::empty()
    } else if b.last() == 10 {
        lines_acc(b.drop_last(), Seq::empty()).map_values(|l: Seq<u8>| strip_cr(l))
    } else {
        lines_acc(b, Seq::empty()).map_values(|l: Seq<u8>| strip_cr(l))
    }
}

/// The decimal digits of a number, as bytes.
pub open spec fn dec_bytes(n: nat) -> Seq<u8>
    decreases n,
{
    if n < 10 {
        seq![(48 + n) as u8]
    } else {
        dec_bytes(n / 10) + seq![(48 + n % 10) as u8]
    }
}

/// A line number padded with spaces to at least four columns.
pub open spec fn pad4(n: nat) -> Seq<u8> {
    let d = dec_bytes(n);
    if d.len() == 1 {
        seq![32u8, 32u8, 32u8] + d
    } else if d.len() == 2 {
        seq![32u8, 32u8] + d
    } else if d.len() == 3 {
        seq![32u8] + d
    } else {
        d
    }
}

/// The first `n` lines numbered: each line behind `{:>4} | `, joined by
/// newlines.
pub open spec fn numbered_to(ls: Seq<Seq<u8>>, n: int) -> Seq<u8>
    decreases n,
{
    if n <= 0 {
        Seq::empty()
    } else {
        numbered_to(ls, n - 1) + (if n > 1 {
            seq![10u8]
        } else {
            Seq::empty()
        }) + pad4(n as nat) + seq![32u8, 124u8, 32u8] + ls[n - 1]
    }
}

/// The view of a file: its numbered lines, capped at the stream limit.
pub open spec fn spec_editor_view(b: Seq<u8>) -> Seq<u8> {
    spec_truncated(numbered_to(text_lines(b), text_lines(b).len() as int))
}

/// The decimal digits of a number, as bytes.
fn dec_bytes_of(n: u64) -> (r: Vec<u8>)
    ensures
        r@ == dec_bytes(n as nat),
    decreases n,
{
    if n < 10 {
        let mut v: Vec<u8> = Vec::new();
        v.push(48 + (n as u8));
        proof {
            assert(v@ =~= dec_bytes(n as nat));
        }
        v
    } else {
        let mut v = dec_bytes_of(n / 10);
        v.push(48 + ((n % 10) as u8));
        proof {
            assert(v@ =~= dec_bytes(n as nat));
        }
        v
    }
}

/// Append a line number padded to at least four columns.
fn push_pad4(out: &mut Vec<u8>, n: u64)
    ensures
        final(out)@ == old(out)@ + pad4(n as nat),
{
    let d = dec_bytes_of(n);
    if d.len() == 1 {
        out.push(32);
        out.push(32);
        out.push(32);
    } else if d.len() == 2 {
        out.push(32);
        out.push(32);
    } else if d.len() == 3 {
        out.push(32);
    }
    let mut i: usize = 0;
    let ghost base = out@;
    while i < d.len()
        invariant
            i <= d@.len(),
            out@ == base + d@.subrange(0, i as int),
        decreases d@.len() - i,
    {
        out.push(d[i]);
        proof {
            assert(base + d@.subrange(0, i + 1) =~= (base + d@.subrange(0, i as int)).push(
                d@[i as int],
            ));
        }
        i += 1;
    }
    proof {
        assert(d@.subrange(0, d@.len() as int) =~= d@);
        assert(out@ =~= old(out)@ + pad4(n as nat));
    }
}

/// The spans of the lines of `b`: start and end positions, with trailing
/// carriage returns already excluded.
fn line_spans(b: &Vec<u8>) -> (r: Vec<(usize, usize)>)
    ensures
        r@.len() == text_lines(b@).len(),
        forall|k: int| 0 <= k < r@.len() ==> (#[trigger] r@[k]).0 <= r@[k].1 <= b@.len()
            && b@.subrange(r@[k].0 as int, r@[k].1 as int) == text_lines(b@)[k],
{
    let len = b.len();
    let mut spans: Vec<(usize, usize)> = Vec::new();
    if len == 0 {
        return spans;
    }
    let ghost mut raw: Seq<Seq<u8>> = Seq::empty();
    let mut start: usize = 0;
    let mut i: usize = 0;
    let ghost whole: Seq<u8> = if b@.last() == 10 {
        b@.drop_last()
    } else {
        b@
    };
    let scan_len: usize = if b[len - 1] == 10 {
        len - 1
    } else {
        len
    };
    proof {
        assert(whole.subrange(0, whole.len() as int) =~= whole);
        assert(whole.subrange(0, 0) =~= Seq::<u8>::empty());
        assert(raw + lines_acc(whole, Seq::empty()) =~= lines_acc(whole, Seq::empty()));
        assert(forall|j: int| 0 <= j < whole.len() ==> whole[j] == b@[j]);
    }
    while i < scan_len
        invariant
            scan_len == whole.len(),
            scan_len <= b@.len(),
            whole == if b@.len() > 0 && b@.last() == 10 {
                b@.drop_last()
            } else {
                b@
            },
            b@.len() > 0,
            forall|j: int| 0 <= j < whole.len() ==> whole[j] == b@[j],
            start <= i <= scan_len,
            spans@.len() == raw.len(),
            forall|k: int| 0 <= k < raw.len() ==> (#[trigger] spans@[k]).0 <= spans@[k].1
                <= b@.len() && b@.subrange(spans@[k].0 as int, spans@[k].1 as int) == strip_cr(
                raw[k],
            ),
            lines_acc(whole, Seq::empty()) == raw + lines_acc(
                whole.subrange(i as int, scan_len as int),
                whole.subrange(start as int, i as int),
            ),
        decreases scan_len - i,
    {
        let ghost rem = whole.subrange(i as int, scan_len as int);
        let ghost cur = whole.subrange(start as int, i as int);
        proof {
            assert(rem[0] == whole[i as int]);
            assert(rem.subrange(1, rem.len() as int) =~= whole.subrange(
                i + 1,
                scan_len as int,
            ));
        }
        if b[i] == 10 {
            let stop = if i > start && b[i - 1] == 13 {
                i - 1
            } else {
                i
            };
            proof {
                if i > start && b@[i - 1] == 13 {
                    assert(cur.len() > 0 && cur.last() == 13);
                    assert(b@.subrange(start as int, stop as int) =~= cur.drop_last());
                } else {
                    assert(b@.subrange(start as int, stop as int) =~= strip_cr(cur));
                }
                let x = lines_acc(whole.subrange(i + 1, scan_len as int), Seq::<u8>::empty());
                assert(lines_acc(rem, cur) == seq![cur] + x);
                assert(raw + (seq![cur] + x) =~= raw.push(cur) + x);
                raw = raw.push(cur);
                assert(whole.subrange(i + 1, i + 1) =~= Seq::<u8>::empty());
            }
            spans.push((start, stop));
            start = i + 1;
        } else {
            proof {
                assert(cur.push(whole[i as int]) =~= whole.subrange(start as int, i + 1));
            }
        }
        i += 1;
    }
    // the final segment, unless a trailing newline closed the last line
    if scan_len == len {
        let stop = if len > start && b[len - 1] == 13 {
            len - 1
        } else {
            len
        };
        proof {
            let cur = whole.subrange(start as int, scan_len as int);
            assert(whole.subrange(scan_len as int, scan_len as int).len() == 0);
            assert(lines_acc(whole, Seq::empty()) =~= raw.push(cur));
            if len > start && b@[len - 1] == 13 {
                assert(cur.len() > 0 && cur.last() == 13);
                assert(b@.subrange(start as int, stop as int) =~= cur.drop_last());
            } else {
                assert(b@.subrange(start as int, stop as int) =~= strip_cr(cur));
            }
            raw = raw.push(cur);
        }
        spans.push((start, stop));
    } else {
        proof {
            let cur = whole.subrange(start as int, scan_len as int);
            assert(whole.subrange(scan_len as int, scan_len as int).len() == 0);
            assert(lines_acc(whole, Seq::empty()) =~= raw.push(cur));
            if scan_len > start && b@[scan_len - 1] == 13 {
                assert(cur.len() > 0 && cur.last() == 13);
                assert(b@.subrange(start as int, (scan_len - 1) as int) =~= cur.drop_last());
            } else {
                assert(b@.subrange(start as int, scan_len as int) =~= strip_cr(cur));
            }
            raw = raw.push(cur);
        }
        let stop = if scan_len > start && b[scan_len - 1] == 13 {
            scan_len - 1
        } else {
            scan_len
        };
        spans.push((start, stop));
    }
    proof {
        assert(text_lines(b@) == lines_acc(whole, Seq::empty()).map_values(
            |l: Seq<u8>| strip_cr(l),
        ));
        assert(lines_acc(whole, Seq::empty()) == raw);
        assert(spans@.len() == text_lines(b@).len());
        assert forall|k: int| 0 <= k < spans@.len() implies (#[trigger] spans@[k]).0
            <= spans@[k].1 <= b@.len() && b@.subrange(spans@[k].0 as int, spans@[k].1 as int)
            == text_lines(b@)[k] by {
            assert(text_lines(b@)[k] == strip_cr(raw[k]));
        }
    }
    spans
}

/// Number the lines of a file for viewing: each line behind a right-aligned
/// four-column number and ` | `, joined by newlines, the whole capped at
/// 10 000 bytes with the truncation marker.
pub fn editor_view_text(content: &Vec<u8>) -> (r: Vec<u8>)
    ensures
        r@ == spec_editor_view(content@),
{
    let spans = line_spans(content);
    let mut out: Vec<u8> = Vec::new();
    let mut k: usize = 0;
    let ghost ls = text_lines(content@);
    while k < spans.len()
        invariant
            spans@.len() == ls.len(),
            ls == text_lines(content@),
            forall|j: int| 0 <= j < spans@.len() ==> (#[trigger] spans@[j]).0 <= spans@[j].1
                <= content@.len() && content@.subrange(spans@[j].0 as int, spans@[j].1 as int)
                == ls[j],
            k <= spans@.len(),
            out@ == numbered_to(ls, k as int),
        decreases spans@.len() - k,
    {
        if k > 0 {
            out.push(10);
        }
        let ghost mid = out@;
        push_pad4(&mut out, (k as u64) + 1);
        out.push(32);
        out.push(124);
        out.push(32);
        let ghost mid2 = out@;
        let (s0, s1) = spans[k];
        let mut j: usize = s0;
        while j < s1
            invariant
                s0 <= j <= s1 <= content@.len(),
                out@ == mid2 + content@.subrange(s0 as int, j as int),
            decreases s1 - j,
        {
            out.push(content[j]);
            proof {
                assert(mid2 + content@.subrange(s0 as int, j + 1) =~= (mid2
                    + content@.subrange(s0 as int, j as int)).push(content@[j as int]));
            }
            j += 1;
        }
        proof {
            assert(out@ =~= numbered_to(ls, k + 1));
        }
        k += 1;
    }
    proof {
        if spans@.len() == 0 {
            assert(out@ =~= numbered_to(ls, ls.len() as int));
        }
    }
    truncate_stream(out)
}

/// Replace the first occurrence of `old_text` in `content` with `new_text`,
/// or report that it does not occur.
pub fn editor_replace(content: &str, old_text: &str, new_text: &str) -> (r: Option<String>)
    ensures
        match r {
            None => !contains_seq(content@, old_text@),
            Some(s) => exists|i: int|
                {
                    &&& match_at(content@, old_text@, i)
                    &&& forall|j: int| 0 <= j < i ==> !match_at(content@, old_text@, j)
                    &&& s@ == content@.subrange(0, i) + new_text@ + content@.subrange(
                        i + old_text@.len() as int,
                        content@.len() as int,
                    )
                },
        },
{
    match crate::text::find_sub(content, old_text) {
        Some(i) => {
            let total = content.unicode_len();
            let olen = old_text.unicode_len();
            proof {
                assert(i + old_text@.len() <= content@.len());
            }
            let mut s = String::from_str(content.substring_char(0, i));
            s.append(new_text);
            s.append(content.substring_char(i + olen, total));
            proof {
                assert(match_at(content@, old_text@, i as int));
            }
            Some(s)
        },
        None => None,
    }
}

/// The note returned after a file is created.
pub fn file_created_text(path: &str) -> (r: String)
    ensures
        r@ == "File created: "@ + path@,
{
    let mut out = String::from_str("File created: ");
    out.append(path);
    out
}

/// The note returned after a file is edited.
pub fn file_edited_text(path: &str) -> (r: String)
    ensures
        r@ == "File edited: "@ + path@,
{
    let mut out = String::from_str("File edited: ");
    out.append(path);
    out
}

/// The non-error note returned when the text to replace is absent.
pub fn old_str_missing_text(path: &str) -> (r: String)
    ensures
        r@ == "Error: old_str not found in "@ + path@,
{
    let mut out = String::from_str("Error: old_str not found in ");
    out.append(path);
    out
}

/// The note returned when a file cannot be read.
pub fn file_read_error_text(detail: &str) -> (r: String)
    ensures
        r@ == "Error reading file: "@ + detail@,
{
    let mut out = String::from_str("Error reading file: ");
    out.append(detail);
    out
}

} // verus!
