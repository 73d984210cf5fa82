//! Structuring a raw Gemini response: the bytes are decoded, the header is
//! split off at the first CR LF, and the header yields the status code and
//! the meta string. Only the decoding itself is trusted; every step after
//! it is verified.

use vstd::prelude::*;
use vstd::string::*;

use crate::request::status::{status_of, Status};
use crate::text::trim_start;
use crate::text::trim_start_str;

verus! {

/// What `String::from_utf8_lossy` returns for these bytes; the result
/// depends on the bytes alone.
pub uninterp spec fn lossy_decode(bytes: Seq<u8>) -> Seq<char>;

/// Relies on `String::from_utf8_lossy`: decodes the bytes as UTF-8 with
/// invalid sequences replaced, a function of the bytes alone.
#[verifier::external_body]
fn lossy_string(data: &[u8]) -> (r: String)
    ensures
        r@ == lossy_decode(data@),
{
    String::from_utf8_lossy(data).to_string()
}

/// Whether a CR LF pair starts at `k`.
pub open spec fn crlf_at(t: Seq<char>, k: int) -> bool {
    0 <= k && k + 1 < t.len() && t[k] == '\r' && t[k + 1] == '\n'
}

/// The index of the first CR LF pair, or the length when there is none.
pub open spec fn crlf_break(t: Seq<char>) -> nat
    decreases t.len(),
{
    if t.len() < 2 {
        t.len()
    } else if t[0] == '\r' && t[1] == '\n' {
        0
    } else {
        1 + crlf_break(t.drop_first())
    }
}

/// If no pair starts before `j` and one starts at `j` (or `j` is the
/// length), the first pair stands exactly at `j`.
proof fn lemma_crlf_break_at(t: Seq<char>, j: int)
    requires
        0 <= j <= t.len(),
        forall|k: int| 0 <= k < j ==> !crlf_at(t, k),
        j == t.len() || crlf_at(t, j),
    ensures
        crlf_break(t) == j,
    decreases j,
{
    if j == 0 {
        if t.len() >= 2 {
            if !(t[0] == '\r' && t[1] == '\n') {
                assert(crlf_at(t, 0) == false);
                assert(j == t.len() || crlf_at(t, j));
                assert(j != t.len());
                assert(false);
            }
        }
    } else {
        assert(!crlf_at(t, 0));
        if t.len() < 2 {
            assert(j == t.len());
            assert(crlf_break(t) == t.len());
        } else {
            assert(!(t[0] == '\r' && t[1] == '\n'));
            let u = t.drop_first();
            assert forall|k: int| 0 <= k < j - 1 implies !crlf_at(u, k) by {
                assert(u[k] == t[k + 1]);
                if k + 1 < u.len() {
                    assert(u[k + 1] == t[k + 2]);
                    assert(!crlf_at(t, k + 1));
                }
            }
            if j < t.len() {
                assert(crlf_at(t, j));
                assert(u[j - 1] == t[j]);
                assert(u[j] == t[j + 1]);
                assert(crlf_at(u, j - 1));
            }
            lemma_crlf_break_at(u, j - 1);
        }
    }
}

/// Find the first CR LF pair, or the length when there is none.
fn find_crlf(s: &str) -> (r: usize)
    ensures
        r == crlf_break(s@),
        r <= s@.len(),
{
    let n: usize = s.unicode_len();
    if n < 2 {
        proof {
            lemma_crlf_break_at(s@, n as int);
        }
        return n;
    }
    let mut i: usize = 0;
    while i < n - 1
        invariant
            n == s@.len(),
            n >= 2,
            0 <= i <= n - 1,
            forall|k: int| 0 <= k < i ==> !crlf_at(s@, k),
        decreases n - i,
    {
        if s.get_char(i) == '\r' && s.get_char(i + 1) == '\n' {
            proof {
                lemma_crlf_break_at(s@, i as int);
            }
            return i;
        }
        proof {
            assert(!crlf_at(s@, i as int));
        }
        i = i + 1;
    }
    proof {
        assert forall|k: int| 0 <= k < n implies !crlf_at(s@, k) by {
            if k + 1 < n {
                assert(k < i);
            }
        }
        lemma_crlf_break_at(s@, n as int);
    }
    n
}

/// Whether the text ends with CR LF, in which case it is all header.
pub open spec fn ends_crlf(t: Seq<char>) -> bool {
    t.len() >= 2 && t[t.len() - 2] == '\r' && t[t.len() - 1] == '\n'
}

/// The header of a response text: the whole text when it ends with CR LF,
/// else everything before the first CR LF.
pub open spec fn header_of(t: Seq<char>) -> Seq<char> {
    if ends_crlf(t) {
        t
    } else {
        t.take(crlf_break(t) as int)
    }
}

/// The text with every CR LF pair removed, left to right.
pub open spec fn strip_crlf(t: Seq<char>) -> Seq<char>
    decreases t.len(),
{
    if t.len() < 2 {
        t
    } else if t[0] == '\r' && t[1] == '\n' {
        strip_crlf(t.skip(2))
    } else {
        seq![t[0]] + strip_crlf(t.drop_first())
    }
}

/// The content of a response text: absent when the text ends with CR LF,
/// else everything after the header's CR LF with the remaining pairs
/// removed.
pub open spec fn content_of(t: Seq<char>) -> Option<Seq<char>> {
    if ends_crlf(t) {
        None
    } else if crlf_break(t) + 2 <= t.len() {
        Some(strip_crlf(t.skip(crlf_break(t) as int + 2)))
    } else {
        Some(Seq::empty())
    }
}

/// The number the first two header characters spell, or zero when they are
/// not two digits.
pub open spec fn status_num(t: Seq<char>) -> int {
    if t.len() >= 2 && 48 <= t[0] as u32 <= 57 && 48 <= t[1] as u32 <= 57 {
        (t[0] as u32 - 48) * 10 + (t[1] as u32 - 48)
    } else {
        0
    }
}

/// The meta of a response: the header after its two status characters,
/// left-trimmed.
pub open spec fn meta_of(t: Seq<char>) -> Seq<char> {
    let h = header_of(t);
    if h.len() >= 2 {
        trim_start(h.skip(2))
    } else {
        Seq::empty()
    }
}

/// Remove every CR LF pair, left to right.
fn strip_crlf_str(s: &str) -> (r: String)
    ensures
        r@ == strip_crlf(s@),
{
    let n: usize = s.unicode_len();
    let mut out = String::new();
    let mut i: usize = 0;
    proof {
        assert(s@.skip(0) =~= s@);
        assert(out@ + strip_crlf(s@) =~= strip_crlf(s@));
    }
    while i < n
        invariant
            n == s@.len(),
            0 <= i <= n,
            strip_crlf(s@) == out@ + strip_crlf(s@.skip(i as int)),
        decreases n - i,
    {
        if i + 1 < n && s.get_char(i) == '\r' && s.get_char(i + 1) == '\n' {
            proof {
                let t = s@.skip(i as int);
                assert(t[0] == s@[i as int]);
                assert(t[1] == s@[i as int + 1]);
                assert(t.skip(2) =~= s@.skip(i as int + 2));
            }
            i = i + 2;
        } else {
            let ghost prev = out@;
            out.append(s.substring_char(i, i + 1));
            proof {
                let t = s@.skip(i as int);
                assert(t[0] == s@[i as int]);
                assert(s@.subrange(i as int, i as int + 1) =~= seq![t[0]]);
                if t.len() < 2 {
                    assert(t =~= seq![t[0]]);
                    assert(s@.skip(i as int + 1).len() == 0);
                    assert(strip_crlf(s@.skip(i as int + 1)) == s@.skip(i as int + 1));
                    assert(out@ + strip_crlf(s@.skip(i as int + 1)) =~= prev + strip_crlf(t));
                } else {
                    assert(t[1] == s@[i as int + 1]);
                    assert(!(t[0] == '\r' && t[1] == '\n'));
                    assert(t.drop_first() =~= s@.skip(i as int + 1));
                    assert(strip_crlf(t) == seq![t[0]] + strip_crlf(t.drop_first()));
                    assert(out@ + strip_crlf(s@.skip(i as int + 1)) =~= prev + strip_crlf(t));
                }
            }
            i = i + 1;
        }
    }
    proof {
        assert(s@.skip(n as int).len() == 0);
        assert(out@ + strip_crlf(s@.skip(n as int)) =~= out@);
    }
    out
}

/// A structured Gemini response: its status, its meta string, its content
/// when the raw text carried one, and the size of the raw bytes.
#[derive(Debug)]
pub struct Response {
    /// The status the header names.
    pub status: Status,
    /// The meta string of the header.
    pub meta: String,
    /// The content after the header, when there is any.
    pub content: Option<String>,
    /// The size of the raw response, in bytes.
    pub size: usize,
}

impl Response {
    /// Structure an already-decoded response text, with the byte size to
    /// record.
    pub fn from_text(text: &str, size: usize) -> (r: Response)
        ensures
            r.status == status_of(status_num(header_of(text@))),
            r.meta@ == meta_of(text@),
            r.content is Some <==> content_of(text@) is Some,
            (match (r.content, content_of(text@)) {
                (Some(c), Some(cv)) => c@ == cv,
                _ => true,
            }),
            r.size == size,
    {
        let n: usize = text.unicode_len();
        let ends = n >= 2 && text.get_char(n - 2) == '\r' && text.get_char(n - 1) == '\n';
        let (header, content) = if ends {
            (text, None)
        } else {
            let hb = find_crlf(text);
            let rest = if n >= 2 && hb <= n - 2 {
                text.substring_char(hb + 2, n)
            } else {
                ""
            };
            proof {
                if hb + 2 <= n {
                    assert(text@.subrange(hb + 2, n as int) =~= text@.skip(
                        crlf_break(text@) as int + 2,
                    ));
                } else {
                    reveal_strlit("");
                    assert(""@ =~= Seq::<char>::empty());
                }
            }
            let stripped = strip_crlf_str(rest);
            proof {
                assert(text@.subrange(0, hb as int) =~= text@.take(crlf_break(text@) as int));
            }
            (text.substring_char(0, hb), Some(stripped))
        };
        let m: usize = header.unicode_len();
        let code: u32 = if m >= 2 {
            let d0 = header.get_char(0) as u32;
            let d1 = header.get_char(1) as u32;
            if 48 <= d0 && d0 <= 57 && 48 <= d1 && d1 <= 57 {
                (d0 - 48) * 10 + (d1 - 48)
            } else {
                0
            }
        } else {
            0
        };
        let status = Status::from(code as i32);
        let meta = if m >= 2 {
            trim_start_str(header.substring_char(2, m)).to_owned()
        } else {
            String::new()
        };
        proof {
            if m >= 2 {
                assert(header@.subrange(2, m as int) =~= header_of(text@).skip(2));
            }
        }
        Response { status, meta, content, size }
    }

    /// Structure a raw response: decode the bytes, split the header off,
    /// and read status and meta from it. The size is the byte count.
    pub fn new(data: &[u8]) -> (r: Response)
        ensures
            r.status == status_of(status_num(header_of(lossy_decode(data@)))),
            r.meta@ == meta_of(lossy_decode(data@)),
            r.content is Some <==> content_of(lossy_decode(data@)) is Some,
            (match (r.content, content_of(lossy_decode(data@))) {
                (Some(c), Some(cv)) => c@ == cv,
                _ => true,
            }),
            r.size == data@.len(),
    {
        let text = lossy_string(data);
        let size = data.len();
        Response::from_text(text.as_str(), size)
    }
}

} // verus!
