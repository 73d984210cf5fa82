//! The meta section of a Gemini response, structured into its mime type
//! and its parameters. Parameters keep their first-seen position and a
//! later value for the same key replaces the earlier one; the serialized
//! form lists them in descending text order, so that it is deterministic
//! whatever order they were inserted in.

use vstd::prelude::*;
use vstd::string::*;

use crate::text::{find_char, find_char_str, split_at_char, split_at_char_str, trim_start,
    trim_start_str};

verus! {

/// The mathematical shape of a [`Meta`]: its mime and its key/value pairs
/// in order.
pub struct MetaV {
    /// The mime type.
    pub mime: Seq<char>,
    /// The parameters, each a key and a value, in first-seen order.
    pub parameters: Seq<(Seq<char>, Seq<char>)>,
}

/// A structured meta section: a mime type and key/value parameters.
#[derive(Debug, Clone)]
pub struct Meta {
    mime: String,
    parameters: Vec<(String, String)>,
}

impl View for Meta {
    type V = MetaV;

    closed spec fn view(&self) -> MetaV {
        MetaV { mime: self.mime@, parameters: self.parameters.deep_view() }
    }
}

/// The mime of a meta string: everything before the first semicolon.
pub open spec fn mime_of(m: Seq<char>) -> Seq<char> {
    m.take(find_char(m, ';') as int)
}

/// The cut position of a parameter segment: the position of its first
/// equals sign (zero when it has none), clipped to the trimmed segment.
pub open spec fn param_cut(seg: Seq<char>) -> int {
    let f = find_char(seg, '=');
    let k: int = if f == seg.len() {
        0
    } else {
        f as int
    };
    if k <= trim_start(seg).len() {
        k
    } else {
        trim_start(seg).len() as int
    }
}

/// The text with every equals sign removed.
pub open spec fn remove_eq(s: Seq<char>) -> Seq<char>
    decreases s.len(),
{
    if s.len() == 0 {
        s
    } else if s[0] == '=' {
        remove_eq(s.drop_first())
    } else {
        seq![s[0]] + remove_eq(s.drop_first())
    }
}

/// The key of a parameter segment: the trimmed segment up to the cut, with
/// equals signs removed.
pub open spec fn param_key(seg: Seq<char>) -> Seq<char> {
    remove_eq(trim_start(seg).take(param_cut(seg)))
}

/// The value of a parameter segment: the trimmed segment after the cut.
pub open spec fn param_val(seg: Seq<char>) -> Seq<char> {
    trim_start(seg).skip(param_cut(seg))
}

/// Insert or replace: a pair whose key is present updates the value in
/// place, a new key is appended.
pub open spec fn upsert(
    ps: Seq<(Seq<char>, Seq<char>)>,
    k: Seq<char>,
    v: Seq<char>,
) -> Seq<(Seq<char>, Seq<char>)>
    decreases ps.len(),
{
    if ps.len() == 0 {
        seq![(k, v)]
    } else if ps[0].0 == k {
        seq![(k, v)] + ps.drop_first()
    } else {
        seq![ps[0]] + upsert(ps.drop_first(), k, v)
    }
}

/// Where the scan for a key ends, the update happens: at the first match,
/// or at the end when there is none.
proof fn lemma_upsert_at(ps: Seq<(Seq<char>, Seq<char>)>, k: Seq<char>, v: Seq<char>, p: int)
    requires
        0 <= p <= ps.len(),
        forall|j: int| 0 <= j < p ==> ps[j].0 != k,
        p == ps.len() || ps[p].0 == k,
    ensures
        p == ps.len() ==> upsert(ps, k, v) == ps.push((k, v)),
        p < ps.len() ==> upsert(ps, k, v) == ps.update(p, (k, v)),
    decreases p,
{
    if p == 0 {
        if ps.len() == 0 {
            assert(upsert(ps, k, v) =~= ps.push((k, v)));
        } else {
            assert(ps[0].0 == k);
            assert(upsert(ps, k, v) =~= ps.update(0, (k, v)));
        }
    } else {
        assert(ps[0].0 != k);
        let rest = ps.drop_first();
        assert forall|j: int| 0 <= j < p - 1 implies #[trigger] rest[j].0 != k by {
            assert(rest[j] == ps[j + 1]);
        }
        assert(p - 1 == rest.len() || rest[p - 1].0 == k);
        lemma_upsert_at(rest, k, v, p - 1);
        if p == ps.len() {
            assert(upsert(ps, k, v) == seq![ps[0]] + rest.push((k, v)));
            assert(seq![ps[0]] + rest.push((k, v)) =~= ps.push((k, v)));
        } else {
            assert(upsert(ps, k, v) == seq![ps[0]] + rest.update(p - 1, (k, v)));
            assert(seq![ps[0]] + rest.update(p - 1, (k, v)) =~= ps.update(p, (k, v)));
        }
    }
}

/// The parameters a run of segments builds, upserted left to right.
pub open spec fn params_from(segs: Seq<Seq<char>>) -> Seq<(Seq<char>, Seq<char>)>
    decreases segs.len(),
{
    if segs.len() == 0 {
        Seq::empty()
    } else {
        upsert(params_from(segs.drop_last()), param_key(segs.last()), param_val(segs.last()))
    }
}

/// The parameters of a meta string: every segment after the first.
pub open spec fn params_of(m: Seq<char>) -> Seq<(Seq<char>, Seq<char>)> {
    params_from(split_at_char(m, ';').drop_first())
}

/// Lexicographic order on character sequences, by code point; for UTF-8
/// this is the byte order Rust's string comparison uses.
pub open spec fn lex_le(a: Seq<char>, b: Seq<char>) -> bool
    decreases a.len(),
{
    if a.len() == 0 {
        true
    } else if b.len() == 0 {
        false
    } else if (a[0] as u32) < (b[0] as u32) {
        true
    } else if (a[0] as u32) > (b[0] as u32) {
        false
    } else {
        lex_le(a.drop_first(), b.drop_first())
    }
}

/// Executable counterpart of [`lex_le`].
fn str_le(a: &str, b: &str) -> (r: bool)
    ensures
        r == lex_le(a@, b@),
{
    let la: usize = a.unicode_len();
    let lb: usize = b.unicode_len();
    let mut i: usize = 0;
    proof {
        assert(a@.skip(0) =~= a@);
        assert(b@.skip(0) =~= b@);
    }
    while i < la && i < lb
        invariant
            la == a@.len(),
            lb == b@.len(),
            0 <= i <= la,
            i <= lb,
            lex_le(a@, b@) == lex_le(a@.skip(i as int), b@.skip(i as int)),
        decreases la - i,
    {
        let ca = a.get_char(i) as u32;
        let cb = b.get_char(i) as u32;
        proof {
            let ta = a@.skip(i as int);
            let tb = b@.skip(i as int);
            assert(ta[0] == a@[i as int]);
            assert(tb[0] == b@[i as int]);
            assert(ta.drop_first() =~= a@.skip(i as int + 1));
            assert(tb.drop_first() =~= b@.skip(i as int + 1));
        }
        if ca < cb {
            return true;
        }
        if ca > cb {
            return false;
        }
        i = i + 1;
    }
    proof {
        let ta = a@.skip(i as int);
        let tb = b@.skip(i as int);
        if i == la {
            assert(ta.len() == 0);
        } else {
            assert(i == lb);
            assert(tb.len() == 0);
            assert(ta.len() > 0);
        }
    }
    la <= lb
}

/// Insert into a descending-sorted run: the new text goes before the first
/// entry not above it.
pub open spec fn insert_desc(sorted: Seq<Seq<char>>, x: Seq<char>) -> Seq<Seq<char>>
    decreases sorted.len(),
{
    if sorted.len() == 0 {
        seq![x]
    } else if lex_le(sorted[0], x) {
        seq![x] + sorted
    } else {
        seq![sorted[0]] + insert_desc(sorted.drop_first(), x)
    }
}

/// Where the scan for the place ends, the insertion happens.
proof fn lemma_insert_desc_at(sorted: Seq<Seq<char>>, x: Seq<char>, p: int)
    requires
        0 <= p <= sorted.len(),
        forall|j: int| 0 <= j < p ==> !lex_le(sorted[j], x),
        p == sorted.len() || lex_le(sorted[p], x),
    ensures
        insert_desc(sorted, x) == sorted.take(p) + seq![x] + sorted.skip(p),
    decreases p,
{
    if p == 0 {
        if sorted.len() == 0 {
            assert(insert_desc(sorted, x) =~= sorted.take(0) + seq![x] + sorted.skip(0));
        } else {
            assert(lex_le(sorted[0], x));
            assert(insert_desc(sorted, x) =~= sorted.take(0) + seq![x] + sorted.skip(0));
        }
    } else {
        assert(!lex_le(sorted[0], x));
        let rest = sorted.drop_first();
        assert forall|j: int| 0 <= j < p - 1 implies !lex_le(#[trigger] rest[j], x) by {
            assert(rest[j] == sorted[j + 1]);
        }
        assert(p - 1 == rest.len() || lex_le(rest[p - 1], x));
        lemma_insert_desc_at(rest, x, p - 1);
        assert(insert_desc(sorted, x) == seq![sorted[0]] + (rest.take(p - 1) + seq![x]
            + rest.skip(p - 1)));
        assert(seq![sorted[0]] + (rest.take(p - 1) + seq![x] + rest.skip(p - 1)) =~= sorted.take(
            p,
        ) + seq![x] + sorted.skip(p));
    }
}

/// Sort texts descending by insertion, left to right.
pub open spec fn sort_desc(s: Seq<Seq<char>>) -> Seq<Seq<char>>
    decreases s.len(),
{
    if s.len() == 0 {
        Seq::empty()
    } else {
        insert_desc(sort_desc(s.drop_last()), s.last())
    }
}

/// The serialized text of one parameter.
pub open spec fn pair_text(p: (Seq<char>, Seq<char>)) -> Seq<char> {
    p.0 + "="@ + p.1
}

/// The serialized tail of a meta string: each entry after a semicolon and
/// a space.
pub open spec fn semi_tail(fs: Seq<Seq<char>>) -> Seq<char>
    decreases fs.len(),
{
    if fs.len() == 0 {
        Seq::empty()
    } else {
        "; "@ + fs.first() + semi_tail(fs.drop_first())
    }
}

/// Appending an entry appends its separated text.
proof fn lemma_semi_tail_push(fs: Seq<Seq<char>>, x: Seq<char>)
    ensures
        semi_tail(fs.push(x)) == semi_tail(fs) + ("; "@ + x),
    decreases fs.len(),
{
    assert(semi_tail(Seq::<Seq<char>>::empty()) == Seq::<char>::empty());
    if fs.len() == 0 {
        assert(fs.push(x).first() == x);
        assert(fs.push(x).drop_first() =~= Seq::<Seq<char>>::empty());
        assert(semi_tail(fs.push(x)) == "; "@ + x + semi_tail(Seq::<Seq<char>>::empty()));
        assert(semi_tail(fs.push(x)) =~= semi_tail(fs) + ("; "@ + x));
    } else {
        assert(fs.push(x).first() == fs.first());
        assert(fs.push(x).drop_first() =~= fs.drop_first().push(x));
        lemma_semi_tail_push(fs.drop_first(), x);
        assert(semi_tail(fs.push(x)) == "; "@ + fs.first() + semi_tail(fs.drop_first().push(x)));
        assert(semi_tail(fs) == "; "@ + fs.first() + semi_tail(fs.drop_first()));
        assert(semi_tail(fs.push(x)) =~= semi_tail(fs) + ("; "@ + x));
    }
}

/// The serialized meta string: the mime, then the parameters in descending
/// text order, each after a semicolon and a space.
pub open spec fn meta_string(v: MetaV) -> Seq<char> {
    v.mime + semi_tail(sort_desc(v.parameters.map_values(|p: (Seq<char>, Seq<char>)| pair_text(p))))
}

/// Remove every equals sign.
fn remove_eq_str(s: &str) -> (r: String)
    ensures
        r@ == remove_eq(s@),
{
    let n: usize = s.unicode_len();
    let mut out = String::new();
    let mut i: usize = 0;
    proof {
        assert(s@.skip(0) =~= s@);
        assert(out@ + remove_eq(s@) =~= remove_eq(s@));
    }
    while i < n
        invariant
            n == s@.len(),
            0 <= i <= n,
            remove_eq(s@) == out@ + remove_eq(s@.skip(i as int)),
        decreases n - i,
    {
        let ghost prev = out@;
        if s.get_char(i) == '=' {
            proof {
                let t = s@.skip(i as int);
                assert(t[0] == s@[i as int]);
                assert(t.drop_first() =~= s@.skip(i as int + 1));
            }
        } else {
            out.append(s.substring_char(i, i + 1));
            proof {
                let t = s@.skip(i as int);
                assert(t[0] == s@[i as int]);
                assert(s@.subrange(i as int, i as int + 1) =~= seq![t[0]]);
                assert(t.drop_first() =~= s@.skip(i as int + 1));
                assert(remove_eq(t) == seq![t[0]] + remove_eq(t.drop_first()));
                assert(out@ + remove_eq(s@.skip(i as int + 1)) =~= prev + remove_eq(t));
            }
        }
        i = i + 1;
    }
    proof {
        assert(s@.skip(n as int).len() == 0);
        assert(out@ + remove_eq(s@.skip(n as int)) =~= out@);
    }
    out
}

/// Whether two string slices hold the same text.
fn str_eq(a: &str, b: &str) -> (r: bool)
    ensures
        r == (a@ == b@),
{
    let la: usize = a.unicode_len();
    let lb: usize = b.unicode_len();
    if la != lb {
        return false;
    }
    let mut i: usize = 0;
    while i < la
        invariant
            la == a@.len(),
            la == b@.len(),
            0 <= i <= la,
            forall|k: int| 0 <= k < i ==> a@[k] == b@[k],
        decreases la - i,
    {
        if a.get_char(i) != b.get_char(i) {
            return false;
        }
        i = i + 1;
    }
    proof {
        assert(a@ =~= b@);
    }
    true
}

/// Insert or replace one parameter.
fn upsert_pair(ps: &mut Vec<(String, String)>, key: String, value: String)
    ensures
        final(ps).deep_view() == upsert(old(ps).deep_view(), key@, value@),
{
    let ghost dv = old(ps).deep_view();
    let mut p: usize = 0;
    while p < ps.len()
        invariant
            *ps == *old(ps),
            dv == ps.deep_view(),
            dv.len() == ps@.len(),
            0 <= p <= ps@.len(),
            forall|j: int| 0 <= j < p ==> #[trigger] dv[j].0 != key@,
        decreases ps@.len() - p,
    {
        proof {
            assert(dv[p as int].0 == ps@[p as int].0@);
        }
        if str_eq(ps[p].0.as_str(), key.as_str()) {
            let ghost pi = p as int;
            ps[p] = (key, value);
            proof {
                lemma_upsert_at(dv, key@, value@, pi);
                assert(ps.deep_view() =~= dv.update(pi, (key@, value@)));
            }
            return ;
        }
        p = p + 1;
    }
    ps.push((key, value));
    proof {
        lemma_upsert_at(dv, key@, value@, dv.len() as int);
        assert(ps.deep_view() =~= dv.push((key@, value@)));
    }
}

impl Default for Meta {
    /// The default meta: an empty mime and no parameters.
    fn default() -> (r: Self)
        ensures
            r@.mime == Seq::<char>::empty(),
            r@.parameters == Seq::<(Seq<char>, Seq<char>)>::empty(),
    {
        let r = Meta { mime: String::new(), parameters: Vec::new() };
        proof {
            assert(r.parameters.deep_view() =~= Seq::<(Seq<char>, Seq<char>)>::empty());
        }
        r
    }
}

impl Meta {
    /// Create an empty meta.
    pub fn new() -> (r: Self)
        ensures
            r@.mime == Seq::<char>::empty(),
            r@.parameters == Seq::<(Seq<char>, Seq<char>)>::empty(),
    {
        let r = Meta { mime: String::new(), parameters: Vec::new() };
        proof {
            assert(r.parameters.deep_view() =~= Seq::<(Seq<char>, Seq<char>)>::empty());
        }
        r
    }

    /// Structure a meta string: the mime before the first semicolon, then
    /// one parameter per semicolon-separated segment.
    pub fn from_string(meta: &str) -> (r: Meta)
        ensures
            r@.mime == mime_of(meta@),
            r@.parameters == params_of(meta@),
    {
        let segs = split_at_char_str(meta, ';');
        let ghost sv = segs.deep_view();
        proof {
            assert(sv.len() >= 1);
            assert(sv[0] == mime_of(meta@)) by {
                crate::text::lemma_find_char(meta@, ';');
                if find_char(meta@, ';') == meta@.len() {
                    assert(meta@.take(meta@.len() as int) =~= meta@);
                }
            }
        }
        let mime = segs[0].clone();
        let mut parameters: Vec<(String, String)> = Vec::new();
        let mut i: usize = 1;
        proof {
            assert(sv.subrange(1, 1) =~= Seq::<Seq<char>>::empty());
            assert(parameters.deep_view() =~= params_from(sv.subrange(1, 1)));
        }
        while i < segs.len()
            invariant
                sv == segs.deep_view(),
                sv.len() == segs@.len(),
                1 <= i <= segs@.len(),
                parameters.deep_view() == params_from(sv.subrange(1, i as int)),
            decreases segs@.len() - i,
        {
            let seg = &segs[i];
            let slen: usize = seg.as_str().unicode_len();
            let feq = find_char_str(seg.as_str(), '=');
            let k: usize = if feq == slen {
                0
            } else {
                feq
            };
            let t = trim_start_str(seg.as_str());
            let tl: usize = t.unicode_len();
            let cut: usize = if k <= tl {
                k
            } else {
                tl
            };
            let key = remove_eq_str(t.substring_char(0, cut));
            let value = t.substring_char(cut, tl).to_owned();
            proof {
                assert(sv[i as int] == segs@[i as int]@);
                let segv = sv[i as int];
                assert(cut == param_cut(segv));
                assert(t@.subrange(0, cut as int) =~= trim_start(segv).take(param_cut(segv)));
                assert(t@.subrange(cut as int, tl as int) =~= trim_start(segv).skip(
                    param_cut(segv),
                ));
                assert(key@ == param_key(segv));
                assert(value@ == param_val(segv));
            }
            upsert_pair(&mut parameters, key, value);
            proof {
                assert(sv.subrange(1, i as int + 1).drop_last() =~= sv.subrange(1, i as int));
                assert(sv.subrange(1, i as int + 1).last() == sv[i as int]);
            }
            i = i + 1;
        }
        proof {
            assert(sv.subrange(1, sv.len() as int) =~= sv.drop_first());
        }
        Meta { mime, parameters }
    }

    /// The mime of the meta.
    pub fn mime(&self) -> (r: &str)
        ensures
            r@ == self@.mime,
    {
        self.mime.as_str()
    }

    /// Mutable access to the mime of the meta.
    pub fn mime_mut(&mut self) -> (r: &mut String)
        ensures
            (*r)@ == old(self)@.mime,
            final(self)@.mime == (*final(r))@,
            final(self)@.parameters == old(self)@.parameters,
    {
        &mut self.mime
    }

    /// The parameters of the meta, in first-seen order.
    pub fn parameters(&self) -> (r: &Vec<(String, String)>)
        ensures
            r.deep_view() == self@.parameters,
    {
        &self.parameters
    }

    /// Mutable access to the parameters of the meta.
    pub fn parameters_mut(&mut self) -> (r: &mut Vec<(String, String)>)
        ensures
            (*r).deep_view() == old(self)@.parameters,
            final(self)@.parameters == (*final(r)).deep_view(),
            final(self)@.mime == old(self)@.mime,
    {
        &mut self.parameters
    }

    /// The value stored for a key, when one is.
    pub fn parameter(&self, key: &str) -> (r: Option<&String>)
        ensures
            match r {
                Some(v) => lookup(self@.parameters, key@) == Some(v@),
                None => lookup(self@.parameters, key@) is None,
            },
    {
        let ghost dv = self@.parameters;
        let mut p: usize = 0;
        proof {
            assert(dv.skip(0) =~= dv);
        }
        while p < self.parameters.len()
            invariant
                dv == self.parameters.deep_view(),
                dv.len() == self.parameters@.len(),
                0 <= p <= dv.len(),
                forall|j: int| 0 <= j < p ==> #[trigger] dv[j].0 != key@,
                lookup(dv, key@) == lookup(dv.skip(p as int), key@),
            decreases dv.len() - p,
        {
            proof {
                assert(dv[p as int].0 == self.parameters@[p as int].0@);
                assert(dv.skip(p as int)[0] == dv[p as int]);
                assert(dv.skip(p as int).drop_first() =~= dv.skip(p as int + 1));
            }
            if str_eq(self.parameters[p].0.as_str(), key) {
                return Some(&self.parameters[p].1);
            }
            p = p + 1;
        }
        proof {
            assert(dv.skip(dv.len() as int).len() == 0);
        }
        None
    }

    /// Serialize the meta: the mime, then each parameter after a semicolon
    /// and a space, in descending text order.
    pub fn to_string(&self) -> (r: String)
        ensures
            r@ == meta_string(self@),
    {
        let ghost dv = self@.parameters;
        let ghost fseq = dv.map_values(|p: (Seq<char>, Seq<char>)| pair_text(p));
        let mut sorted: Vec<String> = Vec::new();
        let mut i: usize = 0;
        proof {
            assert(fseq.take(0) =~= Seq::<Seq<char>>::empty());
            assert(sorted.deep_view() =~= sort_desc(fseq.take(0)));
        }
        while i < self.parameters.len()
            invariant
                dv == self.parameters.deep_view(),
                fseq == dv.map_values(|p: (Seq<char>, Seq<char>)| pair_text(p)),
                dv.len() == self.parameters@.len(),
                fseq.len() == dv.len(),
                0 <= i <= dv.len(),
                sorted.deep_view() == sort_desc(fseq.take(i as int)),
            decreases dv.len() - i,
        {
            let mut f = String::new();
            f.append(self.parameters[i].0.as_str());
            f.append("=");
            f.append(self.parameters[i].1.as_str());
            proof {
                assert(dv[i as int] == self.parameters@[i as int].deep_view());
                assert(fseq[i as int] == pair_text(dv[i as int]));
                assert(f@ == fseq[i as int]);
            }
            let ghost pre_sorted = sorted.deep_view();
            let mut p: usize = 0;
            while p < sorted.len() && !str_le(sorted[p].as_str(), f.as_str())
                invariant
                    pre_sorted == sorted.deep_view(),
                    pre_sorted.len() == sorted@.len(),
                    0 <= p <= pre_sorted.len(),
                    forall|j: int| 0 <= j < p ==> !lex_le(#[trigger] pre_sorted[j], f@),
                decreases pre_sorted.len() - p,
            {
                proof {
                    assert(pre_sorted[p as int] == sorted@[p as int]@);
                }
                p = p + 1;
            }
            proof {
                assert(p < pre_sorted.len() ==> pre_sorted[p as int] == sorted@[p as int]@);
            }
            sorted.insert(p, f);
            proof {
                lemma_insert_desc_at(pre_sorted, fseq[i as int], p as int);
                assert(sorted.deep_view() =~= pre_sorted.take(p as int) + seq![fseq[i as int]]
                    + pre_sorted.skip(p as int));
                assert(fseq.take(i as int + 1).drop_last() =~= fseq.take(i as int));
                assert(fseq.take(i as int + 1).last() == fseq[i as int]);
            }
            i = i + 1;
        }
        proof {
            assert(fseq.take(fseq.len() as int) =~= fseq);
        }
        let mut out = String::new();
        out.append(self.mime.as_str());
        let ghost sv = sorted.deep_view();
        let mut j: usize = 0;
        proof {
            assert(sv.take(0) =~= Seq::<Seq<char>>::empty());
            assert(semi_tail(sv.take(0)) == Seq::<char>::empty());
            assert(out@ =~= self@.mime + semi_tail(sv.take(0)));
        }
        while j < sorted.len()
            invariant
                sv == sorted.deep_view(),
                sv.len() == sorted@.len(),
                0 <= j <= sv.len(),
                out@ == self@.mime + semi_tail(sv.take(j as int)),
            decreases sv.len() - j,
        {
            out.append("; ");
            out.append(sorted[j].as_str());
            proof {
                assert(sv[j as int] == sorted@[j as int]@);
                assert(sv.take(j as int + 1) =~= sv.take(j as int).push(sv[j as int]));
                lemma_semi_tail_push(sv.take(j as int), sv[j as int]);
                assert(out@ =~= self@.mime + semi_tail(sv.take(j as int + 1)));
            }
            j = j + 1;
        }
        proof {
            assert(sv.take(sv.len() as int) =~= sv);
        }
        out
    }
}

/// The first value stored for a key, scanned front to back.
pub open spec fn lookup(ps: Seq<(Seq<char>, Seq<char>)>, k: Seq<char>) -> Option<Seq<char>>
    decreases ps.len(),
{
    if ps.len() == 0 {
        None
    } else if ps[0].0 == k {
        Some(ps[0].1)
    } else {
        lookup(ps.drop_first(), k)
    }
}

} // verus!
