use vstd::prelude::*;

verus! {

/// Unicode `White_Space` characters, the set that `char::is_whitespace` accepts.
pub open spec fn is_space(c: char) -> bool {
    ('\t' <= c && c <= '\r') || c == ' ' || c == '\u{85}' || c == '\u{a0}' || c == '\u{1680}'
        || ('\u{2000}' <= c && c <= '\u{200a}') || c == '\u{2028}' || c == '\u{2029}'
        || c == '\u{202f}' || c == '\u{205f}' || c == '\u{3000}'
}

pub fn is_space_char(c: char) -> (r: bool)
    ensures
        r == is_space(c),
{
    ('\t' <= c && c <= '\r') || c == ' ' || c == '\u{85}' || c == '\u{a0}' || c == '\u{1680}'
        || ('\u{2000}' <= c && c <= '\u{200a}') || c == '\u{2028}' || c == '\u{2029}'
        || c == '\u{202f}' || c == '\u{205f}' || c == '\u{3000}'
}

/// The text with leading white space removed.
pub open spec fn trim_start(s: Seq<char>) -> Seq<char>
    decreases s.len(),
{
    if s.len() > 0 && is_space(s[0]) {
        trim_start(s.drop_first())
    } else {
        s
    }
}

/// The text with trailing white space removed.
pub open spec fn trim_end(s: Seq<char>) -> Seq<char>
    decreases s.len(),
{
    if s.len() > 0 && is_space(s.last()) {
        trim_end(s.drop_last())
    } else {
        s
    }
}

/// The text with white space removed at both ends, as `str::trim` does.
pub open spec fn trim(s: Seq<char>) -> Seq<char> {
    trim_end(trim_start(s))
}

/// Empty, or white space only.
pub open spec fn is_blank(s: Seq<char>) -> bool {
    trim(s).len() == 0
}

pub open spec fn ascii_lower(c: char) -> char {
    if 'A' <= c && c <= 'Z' {
        ((c as u8) + 32) as char
    } else {
        c
    }
}

/// Equality up to ASCII case, as `str::eq_ignore_ascii_case` decides it.
pub open spec fn eq_ignore_ascii_case(a: Seq<char>, b: Seq<char>) -> bool {
    a.len() == b.len() && forall|i: int| 0 <= i < a.len() ==> ascii_lower(a[i]) == ascii_lower(b[i])
}

/// What `str::to_lowercase` returns for a text.
pub uninterp spec fn lower_of(s: Seq<char>) -> Seq<char>;

/// Relies on `str::to_lowercase`: the Unicode lower-case mapping of the text,
/// which depends on the characters alone.
#[verifier::external_body]
pub(crate) fn lowercase(s: &str) -> (r: String)
    ensures
        r@ == lower_of(s@),
{
    s.to_lowercase()
}

/// Relies on `String::push`: appends one character.
#[verifier::external_body]
pub(crate) fn push_char(s: &mut String, c: char)
    ensures
        final(s)@ == old(s)@.push(c),
{
    s.push(c)
}

/// Relies on `String::push_str`: appends a text.
#[verifier::external_body]
pub(crate) fn push_str(s: &mut String, t: &str)
    ensures
        final(s)@ == old(s)@ + t@,
{
    s.push_str(t)
}

/// The characters of a text, in order.
pub fn chars_vec(s: &str) -> (r: Vec<char>)
    ensures
        r@ == s@,
{
    let mut r: Vec<char> = Vec::new();
    let mut i: usize = 0;
    let n = s.unicode_len();
    while i < n
        invariant
            n == s@.len(),
            i <= n,
            r@ == s@.subrange(0, i as int),
        decreases n - i,
    {
        r.push(s.get_char(i));
        i = i + 1;
    }
    r
}

/// An owned copy of a text.
pub fn owned(s: &str) -> (r: String)
    ensures
        r@ == s@,
{
    let mut r = String::new();
    let n = s.unicode_len();
    let mut i: usize = 0;
    while i < n
        invariant
            n == s@.len(),
            i <= n,
            r@ == s@.subrange(0, i as int),
        decreases n - i,
    {
        push_char(&mut r, s.get_char(i));
        assert(s@.subrange(0, i + 1) == s@.subrange(0, i as int).push(s@[i as int]));
        i = i + 1;
    }
    assert(s@.subrange(0, n as int) == s@);
    r
}

/// A list with no items.
pub fn empty_list() -> (r: Vec<String>)
    ensures
        r.deep_view() == Seq::<Seq<char>>::empty(),
{
    let r: Vec<String> = Vec::new();
    assert(r.deep_view() =~= Seq::<Seq<char>>::empty());
    r
}

/// Appends the items of `items` to `dst`, in order.
pub fn extend_list(dst: &mut Vec<String>, items: &Vec<String>)
    ensures
        final(dst).deep_view() == old(dst).deep_view() + items.deep_view(),
{
    let ghost start = dst.deep_view();
    let mut i: usize = 0;
    while i < items.len()
        invariant
            i <= items.len(),
            dst.deep_view() == start + items.deep_view().subrange(0, i as int),
        decreases items.len() - i,
    {
        let ghost before = dst.deep_view();
        dst.push(items[i].clone());
        assert(dst.deep_view() =~= before.push(items[i as int]@));
        assert(items.deep_view().subrange(0, i + 1) =~= items.deep_view().subrange(0, i as int).push(
            items[i as int]@,
        ));
        i = i + 1;
    }
    assert(items.deep_view().subrange(0, items.len() as int) =~= items.deep_view());
}

/// The text made of `v[lo..hi]`.
pub fn string_of(v: &Vec<char>, lo: usize, hi: usize) -> (r: String)
    requires
        lo <= hi <= v.len(),
    ensures
        r@ == v@.subrange(lo as int, hi as int),
{
    let mut r = String::new();
    let mut i = lo;
    while i < hi
        invariant
            lo <= i <= hi <= v.len(),
            r@ == v@.subrange(lo as int, i as int),
        decreases hi - i,
    {
        push_char(&mut r, v[i]);
        assert(v@.subrange(lo as int, i + 1) == v@.subrange(lo as int, i as int).push(v@[i as int]));
        i = i + 1;
    }
    r
}

pub proof fn lemma_trim_start_sub(s: Seq<char>, lo: int, hi: int)
    requires
        0 <= lo <= hi <= s.len(),
        forall|k: int| 0 <= k < lo ==> is_space(s[k]),
        lo == hi || !is_space(s[lo]),
    ensures
        trim_start(s.subrange(0, hi)) == s.subrange(lo, hi),
    decreases lo,
{
    if lo > 0 {
        let t = s.subrange(0, hi);
        assert(t.drop_first() == s.drop_first().subrange(0, hi - 1));
        lemma_trim_start_sub(s.drop_first(), lo - 1, hi - 1);
        assert(s.drop_first().subrange(lo - 1, hi - 1) == s.subrange(lo, hi));
    } else if lo < hi {
        assert(s.subrange(0, hi)[0] == s[0]);
    } else {
        assert(s.subrange(0, hi).len() == 0);
    }
}

pub proof fn lemma_trim_end_sub(s: Seq<char>, lo: int, hi: int)
    requires
        0 <= lo <= hi <= s.len(),
        forall|k: int| hi <= k < s.len() ==> is_space(s[k]),
        lo == hi || !is_space(s[hi - 1]),
    ensures
        trim_end(s.subrange(lo, s.len() as int)) == s.subrange(lo, hi),
    decreases s.len() - hi,
{
    let t = s.subrange(lo, s.len() as int);
    if hi < s.len() {
        assert(t.last() == s.last());
        assert(t.drop_last() == s.drop_last().subrange(lo, s.len() - 1));
        lemma_trim_end_sub(s.drop_last(), lo, hi);
        assert(s.drop_last().subrange(lo, hi) == s.subrange(lo, hi));
    } else {
        assert(t == s.subrange(lo, hi));
        if lo < hi {
            assert(t.last() == s[hi - 1]);
        }
    }
}

/// Bounds `(lo, hi)` such that `v[lo..hi]` is `v[from..to]` trimmed.
pub fn trim_bounds(v: &Vec<char>, from: usize, to: usize) -> (r: (usize, usize))
    requires
        from <= to <= v.len(),
    ensures
        from <= r.0 <= r.1 <= to,
        v@.subrange(r.0 as int, r.1 as int) == trim(v@.subrange(from as int, to as int)),
{
    let ghost s = v@.subrange(from as int, to as int);
    let mut lo = from;
    while lo < to && is_space_char(v[lo])
        invariant
            from <= lo <= to <= v.len(),
            forall|k: int| from <= k < lo ==> is_space(v@[k]),
        decreases to - lo,
    {
        lo = lo + 1;
    }
    let mut hi = to;
    while hi > lo && is_space_char(v[hi - 1])
        invariant
            from <= lo <= hi <= to <= v.len(),
            forall|k: int| hi <= k < to ==> is_space(v@[k]),
        decreases hi,
    {
        hi = hi - 1;
    }
    proof {
        lemma_trim_start_sub(s, lo - from, s.len() as int);
        assert(s.subrange(0, s.len() as int) == s);
        lemma_trim_end_sub(s, lo - from, hi - from);
        assert(s.subrange(lo - from, hi - from) == v@.subrange(lo as int, hi as int));
    }
    (lo, hi)
}

/// The trimmed text, as a new `String`.
pub fn trim_string(s: &str) -> (r: String)
    ensures
        r@ == trim(s@),
{
    let v = chars_vec(s);
    let (lo, hi) = trim_bounds(&v, 0, v.len());
    assert(v@.subrange(0, v@.len() as int) == v@);
    string_of(&v, lo, hi)
}

pub proof fn lemma_blank_all_space(s: Seq<char>)
    ensures
        is_blank(s) <==> forall|k: int| 0 <= k < s.len() ==> is_space(s[k]),
    decreases s.len(),
{
    if s.len() > 0 {
        if is_space(s[0]) {
            lemma_blank_all_space(s.drop_first());
            if is_blank(s) {
                assert forall|k: int| 0 <= k < s.len() implies is_space(s[k]) by {
                    if k > 0 {
                        assert(s[k] == s.drop_first()[k - 1]);
                    }
                }
            }
        } else {
            lemma_trim_end_nonempty(s);
        }
    }
}

proof fn lemma_trim_end_nonempty(s: Seq<char>)
    requires
        s.len() > 0,
        !is_space(s[0]),
    ensures
        trim_end(s).len() > 0,
    decreases s.len(),
{
    if is_space(s.last()) {
        assert(s.len() > 1);
        assert(s.drop_last()[0] == s[0]);
        lemma_trim_end_nonempty(s.drop_last());
    }
}

/// Whether a text is empty or white space only.
pub fn blank(s: &str) -> (r: bool)
    ensures
        r == is_blank(s@),
{
    proof {
        lemma_blank_all_space(s@);
    }
    let n = s.unicode_len();
    let mut i: usize = 0;
    while i < n
        invariant
            n == s@.len(),
            i <= n,
            forall|k: int| 0 <= k < i ==> is_space(s@[k]),
        decreases n - i,
    {
        let c = s.get_char(i);
        if !is_space_char(c) {
            proof {
                lemma_blank_all_space(s@);
                if is_blank(s@) {
                    assert(is_space(s@[i as int]));
                }
            }
            return false;
        }
        i = i + 1;
    }
    true
}

pub fn ascii_lower_char(c: char) -> (r: char)
    ensures
        r == ascii_lower(c),
{
    if 'A' <= c && c <= 'Z' {
        ((c as u8) + 32) as char
    } else {
        c
    }
}

/// Equality of two texts up to ASCII case.
pub fn same_ignoring_ascii_case(a: &str, b: &str) -> (r: bool)
    ensures
        r == eq_ignore_ascii_case(a@, b@),
{
    let va = chars_vec(a);
    let vb = chars_vec(b);
    if va.len() != vb.len() {
        return false;
    }
    let mut i: usize = 0;
    while i < va.len()
        invariant
            va@ == a@,
            vb@ == b@,
            va.len() == vb.len(),
            i <= va.len(),
            forall|k: int| 0 <= k < i ==> ascii_lower(a@[k]) == ascii_lower(b@[k]),
        decreases va.len() - i,
    {
        if ascii_lower_char(va[i]) != ascii_lower_char(vb[i]) {
            return false;
        }
        i = i + 1;
    }
    true
}

pub open spec fn is_quote(c: char) -> bool {
    c == '"' || c == '\''
}

/// One layer of matching quotes taken off both ends, where there is one.
pub open spec fn unquote(s: Seq<char>) -> Seq<char> {
    if s.len() >= 2 && is_quote(s[0]) && s.last() == s[0] {
        s.subrange(1, s.len() - 1)
    } else {
        s
    }
}

/// A list token: trimmed, then one layer of matching quotes removed.
pub open spec fn clean_token(s: Seq<char>) -> Seq<char> {
    unquote(trim(s))
}

/// Bounds of `v[from..to]` as `clean_token` leaves it.
pub fn clean_bounds(v: &Vec<char>, from: usize, to: usize) -> (r: (usize, usize))
    requires
        from <= to <= v.len(),
    ensures
        from <= r.0 <= r.1 <= to,
        v@.subrange(r.0 as int, r.1 as int) == clean_token(v@.subrange(from as int, to as int)),
{
    let (lo, hi) = trim_bounds(v, from, to);
    if hi - lo >= 2 && (v[lo] == '"' || v[lo] == '\'') && v[hi - 1] == v[lo] {
        assert(v@.subrange(lo + 1, hi - 1) == v@.subrange(lo as int, hi as int).subrange(
            1,
            (hi - lo) - 1,
        ));
        (lo + 1, hi - 1)
    } else {
        (lo, hi)
    }
}

pub open spec fn is_list_sep(c: char) -> bool {
    c == ';' || c == ',' || c == '\n' || c == '\r'
}

/// The tokens of `s` that lie between separators, before cleaning.
pub open spec fn raw_tokens(s: Seq<char>) -> Seq<Seq<char>>
    decreases s.len(),
{
    if s.len() == 0 {
        seq![Seq::<char>::empty()]
    } else {
        let rest = raw_tokens(s.drop_last());
        if is_list_sep(s.last()) {
            rest.push(Seq::<char>::empty())
        } else {
            rest.update(rest.len() - 1, rest.last().push(s.last()))
        }
    }
}

/// Cleaned tokens, empty ones left out.
pub open spec fn keep_tokens(toks: Seq<Seq<char>>) -> Seq<Seq<char>>
    decreases toks.len(),
{
    if toks.len() == 0 {
        seq![]
    } else {
        let rest = keep_tokens(toks.drop_last());
        let t = clean_token(toks.last());
        if t.len() == 0 {
            rest
        } else {
            rest.push(t)
        }
    }
}

/// The items of a list value: split on `;`, `,`, line feed or carriage return,
/// each token cleaned, empty tokens dropped, order kept.
pub open spec fn list_items(s: Seq<char>) -> Seq<Seq<char>> {
    keep_tokens(raw_tokens(s))
}

proof fn lemma_raw_tokens_len(s: Seq<char>)
    ensures
        raw_tokens(s).len() >= 1,
    decreases s.len(),
{
    if s.len() > 0 {
        lemma_raw_tokens_len(s.drop_last());
    }
}

/// `raw_tokens` of a prefix that ends just after a separator, or at `start`.
proof fn lemma_raw_tokens_step(s: Seq<char>, start: int, i: int)
    requires
        0 <= start <= i < s.len(),
        forall|k: int| start <= k <= i ==> !is_list_sep(s[k]),
    ensures
        raw_tokens(s.subrange(0, i + 1)) == raw_tokens(s.subrange(0, i)).update(
            raw_tokens(s.subrange(0, i)).len() - 1,
            raw_tokens(s.subrange(0, i)).last().push(s[i]),
        ),
{
    let p = s.subrange(0, i + 1);
    assert(p.drop_last() == s.subrange(0, i));
    assert(p.last() == s[i]);
}

/// The items of a list value, as `list_items` describes them.
pub fn parse_list(raw: &str) -> (r: Vec<String>)
    ensures
        r.deep_view() == list_items(raw@),
{
    let v = chars_vec(raw);
    let n = v.len();
    let mut out: Vec<String> = Vec::new();
    let mut start: usize = 0;
    let mut i: usize = 0;
    proof {
        assert(v@.subrange(0, 0) =~= Seq::<char>::empty());
    }
    while i < n
        invariant
            n == v.len(),
            v@ == raw@,
            start <= i <= n,
            forall|k: int| start <= k < i ==> !is_list_sep(v@[k]),
            raw_tokens(v@.subrange(0, i as int)).last() == v@.subrange(start as int, i as int),
            out.deep_view() == keep_tokens(raw_tokens(v@.subrange(0, i as int)).drop_last()),
        decreases n - i,
    {
        let ghost toks = raw_tokens(v@.subrange(0, i as int));
        proof {
            lemma_raw_tokens_len(v@.subrange(0, i as int));
        }
        let ghost p = v@.subrange(0, i + 1);
        assert(p.drop_last() == v@.subrange(0, i as int));
        assert(p.last() == v@[i as int]);
        if v[i] == ';' || v[i] == ',' || v[i] == '\n' || v[i] == '\r' {
            let (lo, hi) = clean_bounds(&v, start, i);
            if lo < hi {
                out.push(string_of(&v, lo, hi));
            }
            proof {
                let nt = raw_tokens(p);
                assert(nt == toks.push(Seq::<char>::empty()));
                assert(nt.drop_last() == toks);
                assert(toks == toks.drop_last().push(toks.last()));
                assert(keep_tokens(toks) == if clean_token(toks.last()).len() == 0 {
                    keep_tokens(toks.drop_last())
                } else {
                    keep_tokens(toks.drop_last()).push(clean_token(toks.last()))
                });
                assert(out.deep_view() == keep_tokens(nt.drop_last()));
                assert(nt.last() == v@.subrange(i + 1, i + 1));
            }
            i = i + 1;
            start = i;
        } else {
            proof {
                let nt = raw_tokens(p);
                assert(nt == toks.update(toks.len() - 1, toks.last().push(v@[i as int])));
                assert(nt.drop_last() == toks.drop_last());
                assert(v@.subrange(start as int, i + 1) == v@.subrange(start as int, i as int).push(
                    v@[i as int],
                ));
            }
            i = i + 1;
        }
    }
    proof {
        lemma_raw_tokens_len(v@.subrange(0, n as int));
    }
    let ghost toks = raw_tokens(v@.subrange(0, n as int));
    let (lo, hi) = clean_bounds(&v, start, n);
    if lo < hi {
        out.push(string_of(&v, lo, hi));
    }
    proof {
        assert(v@.subrange(0, n as int) == raw@);
        assert(toks == toks.drop_last().push(toks.last()));
        assert(keep_tokens(toks) == if clean_token(toks.last()).len() == 0 {
            keep_tokens(toks.drop_last())
        } else {
            keep_tokens(toks.drop_last()).push(clean_token(toks.last()))
        });
    }
    out
}

} // verus!
