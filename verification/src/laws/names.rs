//! How texts are reduced to the domains that are looked up, told by what the
//! texts are made of.

use vstd::prelude::*;
use vstd::utf8::is_ascii_chars;

use crate::bloom::{
    all_digits, dotless, host, normalized, without_final_dots, without_port, without_scheme,
};
use crate::text::{
    before_first, first_at, last_at, lead, lemma_first_at, tail, trim_start, trimmed,
    unicode_lowercase, white_space, without_prefix,
};

verus! {

// ---------------------------------------------------------------------------
// Trimming
// ---------------------------------------------------------------------------

/// Whether every character of `s` is white space.
pub open spec fn blank_text(s: Seq<char>) -> bool {
    forall|i: int| 0 <= i < s.len() ==> white_space(#[trigger] s[i])
}

/// Whether `s` neither starts nor ends with white space.
pub open spec fn tight(s: Seq<char>) -> bool {
    s.len() > 0 ==> !white_space(s[0]) && !white_space(s[s.len() - 1])
}

proof fn lemma_lead_at(s: Seq<char>, i: int, n: int)
    requires
        0 <= i <= n <= s.len(),
        forall|j: int| i <= j < n ==> white_space(#[trigger] s[j]),
        n < s.len() ==> !white_space(s[n]),
    ensures
        lead(s, i) == n,
    decreases n - i,
{
    if i < n {
        assert(white_space(s[i]));
        lemma_lead_at(s, i + 1, n);
    }
}

proof fn lemma_tail_at(s: Seq<char>, n: int, m: int)
    requires
        0 <= m <= n <= s.len(),
        forall|j: int| m <= j < n ==> white_space(#[trigger] s[j]),
        m > 0 ==> !white_space(s[m - 1]),
    ensures
        tail(s, n) == m,
    decreases n - m,
{
    if n > m {
        assert(white_space(s[n - 1]));
        lemma_tail_at(s, n - 1, m);
    }
}

proof fn lemma_lead_blank(s: Seq<char>, i: int)
    requires
        0 <= i <= s.len(),
    ensures
        i <= lead(s, i) <= s.len(),
        forall|j: int| i <= j < lead(s, i) ==> white_space(#[trigger] s[j]),
        lead(s, i) < s.len() ==> !white_space(s[lead(s, i)]),
    decreases s.len() - i,
{
    if i < s.len() && white_space(s[i]) {
        lemma_lead_blank(s, i + 1);
    }
}

proof fn lemma_tail_blank(s: Seq<char>, n: int)
    requires
        0 <= n <= s.len(),
    ensures
        0 <= tail(s, n) <= n,
        forall|j: int| tail(s, n) <= j < n ==> white_space(#[trigger] s[j]),
        tail(s, n) > 0 ==> !white_space(s[tail(s, n) - 1]),
    decreases n,
{
    if n > 0 && white_space(s[n - 1]) {
        lemma_tail_blank(s, n - 1);
    }
}

/// Trimming removes white space at the two ends and nothing else, and leaves
/// none there.
pub proof fn trimming_removes_the_ends(s: Seq<char>)
    ensures
        tight(trimmed(s)),
        exists|a: Seq<char>, b: Seq<char>|
            blank_text(a) && blank_text(b) && s == #[trigger] (a + trimmed(s) + b),
{
    let from = lead(s, 0);
    lemma_lead_blank(s, 0);
    let front = trim_start(s);
    let to = tail(front, front.len() as int);
    lemma_tail_blank(front, front.len() as int);
    let a = s.take(from);
    let b = front.skip(to);
    assert forall|i: int| 0 <= i < b.len() implies white_space(#[trigger] b[i]) by {
        assert(b[i] == front[to + i]);
    }
    if to > 0 {
        assert(trimmed(s)[0] == s[from]);
        assert(trimmed(s)[to - 1] == front[to - 1]);
    }
    assert(s =~= a + trimmed(s) + b);
}

/// White space around a text is dropped, whatever the text and the white space.
pub proof fn padding_is_dropped(a: Seq<char>, s: Seq<char>, b: Seq<char>)
    requires
        blank_text(a),
        blank_text(b),
        tight(s),
    ensures
        trimmed(a + s + b) == s,
{
    let whole = a + s + b;
    if s.len() == 0 {
        assert forall|j: int| 0 <= j < whole.len() implies white_space(#[trigger] whole[j]) by {
            if j < a.len() {
                assert(whole[j] == a[j]);
            } else {
                assert(whole[j] == b[j - a.len()]);
            }
        }
        lemma_lead_at(whole, 0, whole.len() as int);
        assert(trim_start(whole) =~= Seq::empty());
        assert(trimmed(whole) =~= s);
    } else {
        assert forall|j: int| 0 <= j < a.len() implies white_space(#[trigger] whole[j]) by {
            assert(whole[j] == a[j]);
        }
        assert(whole[a.len() as int] == s[0]);
        lemma_lead_at(whole, 0, a.len() as int);
        let front = trim_start(whole);
        assert(front =~= s + b);
        assert forall|j: int| s.len() <= j < front.len() implies white_space(
            #[trigger] front[j],
        ) by {
            assert(front[j] == b[j - s.len()]);
        }
        lemma_tail_at(front, front.len() as int, s.len() as int);
        assert(trimmed(whole) =~= s);
    }
}

/// Trimming `a + x + y`, where `a` is white space and `x` has none at its ends,
/// keeps `x` and some of `y`.
proof fn lemma_trim_keeps(a: Seq<char>, x: Seq<char>, y: Seq<char>) -> (kept: Seq<char>)
    requires
        blank_text(a),
        x.len() > 0,
        tight(x),
    ensures
        trimmed(a + x + y) == x + kept,
        kept.is_prefix_of(y),
        kept.len() > 0 ==> !white_space(kept[kept.len() - 1]),
{
    let whole = a + x + y;
    assert forall|j: int| 0 <= j < a.len() implies white_space(#[trigger] whole[j]) by {
        assert(whole[j] == a[j]);
    }
    assert(whole[a.len() as int] == x[0]);
    lemma_lead_at(whole, 0, a.len() as int);
    let front = trim_start(whole);
    assert(front =~= x + y);
    let to = tail(front, front.len() as int);
    lemma_tail_blank(front, front.len() as int);
    if to < x.len() {
        assert(front[x.len() - 1] == x[x.len() - 1]);
        assert(white_space(front[x.len() - 1]));
    }
    let kept = y.take(to - x.len());
    assert(trimmed(whole) =~= x + kept);
    if kept.len() > 0 {
        assert(kept[kept.len() - 1] == front[to - 1]);
    }
    kept
}

// ---------------------------------------------------------------------------
// Cutting
// ---------------------------------------------------------------------------

/// The first occurrence of a character is where it first occurs, and the end
/// where it does not.
pub proof fn first_occurrence(a: Seq<char>, c: char, b: Seq<char>)
    requires
        !a.contains(c),
    ensures
        first_at(a + seq![c] + b, c, 0) == a.len(),
        first_at(a, c, 0) == a.len(),
        before_first(a + seq![c] + b, c) == a,
        before_first(a, c) == a,
{
    let s = a + seq![c] + b;
    lemma_first_at(s, c, 0);
    lemma_first_at(a, c, 0);
    let n = a.len() as int;
    assert(s[n] == c);
    let f = first_at(s, c, 0);
    if f < n {
        assert(a[f] == c);
    }
    if first_at(a, c, 0) < n {
        assert(a[first_at(a, c, 0)] == c);
    }
    assert(before_first(s, c) =~= a);
    assert(before_first(a, c) =~= a);
}

/// Cutting `a + t` at `c`, which `a` does not have, cuts `t`.
proof fn lemma_cut_behind(a: Seq<char>, t: Seq<char>, c: char)
    requires
        !a.contains(c),
    ensures
        before_first(a + t, c) == a + before_first(t, c),
        before_first(t, c).is_prefix_of(t),
        t.len() > 0 && t[0] == c ==> before_first(t, c).len() == 0,
        t.len() > 0 && t[0] != c ==> before_first(t, c).len() > 0 && before_first(t, c)[0] == t[0],
{
    let s = a + t;
    lemma_first_at(s, c, 0);
    lemma_first_at(t, c, 0);
    let n = a.len() as int;
    let f = first_at(s, c, 0);
    let g = first_at(t, c, 0);
    if f < n {
        assert(a[f] == c);
    }
    if g < t.len() {
        assert(s[n + g] == c);
        if f < n + g {
            assert(t[f - n] == c);
        }
    } else if f < s.len() {
        assert(t[f - n] == c);
    }
    assert(f == n + g);
    assert(before_first(s, c) =~= a + before_first(t, c));
}

proof fn lemma_last_at(s: Seq<char>, c: char, n: int)
    requires
        0 <= n <= s.len(),
    ensures
        -1 <= last_at(s, c, n) < n,
        last_at(s, c, n) >= 0 ==> s[last_at(s, c, n)] == c,
        forall|j: int| last_at(s, c, n) < j < n ==> s[j] != c,
    decreases n,
{
    if n > 0 && s[n - 1] != c {
        lemma_last_at(s, c, n - 1);
    }
}

proof fn lemma_dotless(s: Seq<char>, n: int)
    requires
        0 <= n <= s.len(),
    ensures
        0 <= dotless(s, n) <= n,
        dotless(s, n) > 0 ==> s[dotless(s, n) - 1] != '.',
        forall|j: int| dotless(s, n) <= j < n ==> s[j] == '.',
    decreases n,
{
    if n > 0 && s[n - 1] == '.' {
        lemma_dotless(s, n - 1);
    }
}

// ---------------------------------------------------------------------------
// Hosts
// ---------------------------------------------------------------------------

/// Whether `s` has none of the characters that end a host: `/`, `?` and `#`.
pub open spec fn within_host(s: Seq<char>) -> bool {
    forall|i: int| 0 <= i < s.len() ==> #[trigger] s[i] != '/' && s[i] != '?' && s[i] != '#'
}

/// Whether `s` is empty or starts with a character that ends a host.
pub open spec fn behind_host(s: Seq<char>) -> bool {
    s.len() > 0 ==> s[0] == '/' || s[0] == '?' || s[0] == '#'
}

/// Whether `s` ends in a colon and digits, or in a colon.
pub open spec fn ends_in_port(s: Seq<char>) -> bool {
    exists|colon: int|
        0 <= colon < s.len() && #[trigger] s[colon] == ':' && forall|j: int|
            colon < j < s.len() ==> '0' <= #[trigger] s[j] <= '9'
}

proof fn lemma_cut_three(a: Seq<char>, t: Seq<char>)
    requires
        within_host(a),
        behind_host(t),
    ensures
        before_first(before_first(before_first(a + t, '/'), '?'), '#') == a,
{
    let t1 = before_first(t, '/');
    let t2 = before_first(t1, '?');
    let t3 = before_first(t2, '#');
    lemma_cut_behind(a, t, '/');
    lemma_cut_behind(a, t1, '?');
    lemma_cut_behind(a, t2, '#');
    assert(t3.len() == 0);
    assert(a + t3 =~= a);
}

proof fn lemma_port_cut(a: Seq<char>, port: Seq<char>)
    requires
        port.len() == 0 ==> !ends_in_port(a),
        port.len() > 0 ==> port[0] == ':' && forall|j: int|
            1 <= j < port.len() ==> '0' <= #[trigger] port[j] <= '9',
    ensures
        without_port(a + port) == a,
{
    let s = a + port;
    let n = s.len() as int;
    let colon = last_at(s, ':', n);
    lemma_last_at(s, ':', n);
    if port.len() == 0 {
        assert(s =~= a);
        if colon >= 0 && all_digits(s.skip(colon + 1)) {
            assert forall|j: int| colon < j < a.len() implies '0' <= #[trigger] a[j] <= '9' by {
                assert(s.skip(colon + 1)[j - colon - 1] == a[j]);
            }
            assert(a[colon] == ':');
            assert(ends_in_port(a));
        }
    } else {
        let at = a.len() as int;
        assert(s[at] == ':');
        if colon > at {
            assert(s[colon] == port[colon - at]);
        }
        assert(colon == at);
        assert forall|i: int| 0 <= i < s.skip(at + 1).len() implies '0' <= #[trigger] s.skip(
            at + 1,
        )[i] <= '9' by {
            assert(s.skip(at + 1)[i] == port[i + 1]);
        }
        assert(s.take(at) =~= a);
    }
}

proof fn lemma_dots_cut(name: Seq<char>, dots: Seq<char>)
    requires
        name.len() > 0 ==> name[name.len() - 1] != '.',
        forall|i: int| 0 <= i < dots.len() ==> #[trigger] dots[i] == '.',
    ensures
        without_final_dots(name + dots) == name,
{
    let s = name + dots;
    let n = dotless(s, s.len() as int);
    lemma_dotless(s, s.len() as int);
    if n > name.len() {
        assert(s[n - 1] == dots[n - 1 - name.len()]);
    }
    if n < name.len() {
        assert(s[name.len() - 1] == name[name.len() - 1]);
    }
    assert(s.take(n) =~= name);
}

proof fn lemma_not_prefix_of_less(p: Seq<char>, less: Seq<char>, whole: Seq<char>)
    requires
        less.is_prefix_of(whole),
        !p.is_prefix_of(whole),
    ensures
        !p.is_prefix_of(less),
{
    if p.is_prefix_of(less) {
        assert(whole.take(p.len() as int) =~= p);
    }
}

/// What is left of a trimmed URI once scheme and `www.` are gone.
proof fn lemma_named(scheme: Seq<char>, www: Seq<char>, named: Seq<char>)
    requires
        scheme.len() == 0 || scheme == "https://"@ || scheme == "http://"@,
        www.len() == 0 || www == "www."@,
        scheme.len() == 0 ==> !"https://"@.is_prefix_of(www + named) && !"http://"@.is_prefix_of(
            www + named,
        ),
        www.len() == 0 ==> !"www."@.is_prefix_of(named),
    ensures
        without_prefix(without_scheme(scheme + www + named), "www."@) == named,
{
    reveal_strlit("https://");
    reveal_strlit("http://");
    reveal_strlit("www.");
    let s = scheme + www + named;
    let rest = www + named;
    if scheme.len() == 0 {
        assert(s =~= rest);
    } else {
        assert(s.take(scheme.len() as int) =~= scheme);
        assert(scheme.is_prefix_of(s));
        assert(s.skip(scheme.len() as int) =~= rest);
        if scheme == "http://"@ {
            assert(s[4] == ':');
            assert("https://"@[4] == 's');
        }
    }
    assert(without_scheme(s) == rest);
    if www.len() == 0 {
        assert(rest =~= named);
    } else {
        assert(rest.take(4) =~= www);
        assert(rest.skip(4) =~= named);
    }
}

/// What trimming leaves of a URI.
proof fn lemma_trimmed_uri(
    before: Seq<char>,
    front: Seq<char>,
    path: Seq<char>,
    after: Seq<char>,
) -> (kept: Seq<char>)
    requires
        blank_text(before),
        blank_text(after),
        front.len() > 0 ==> !white_space(front[0]),
        path.len() == 0 ==> tight(front),
        behind_host(path),
    ensures
        trimmed(before + (front + path) + after) == front + kept,
        kept.is_prefix_of(path),
        behind_host(kept),
{
    let raw = before + (front + path) + after;
    if path.len() == 0 {
        assert(raw =~= before + front + after);
        padding_is_dropped(before, front, after);
        assert(front + path =~= front);
        path
    } else {
        let x = front + seq![path[0]];
        let y = path.skip(1) + after;
        assert(raw =~= before + x + y);
        if front.len() > 0 {
            assert(x[0] == front[0]);
        }
        let more = lemma_trim_keeps(before, x, y);
        assert forall|i: int| 0 <= i < more.len() implies more[i] == y[i] by {
            assert(more[i] == y.subrange(0, more.len() as int)[i]);
        }
        if more.len() >= path.len() {
            let last = more.len() - 1;
            assert(y[last] == after[last - (path.len() - 1)]);
        }
        let kept = seq![path[0]] + more;
        assert(x + more =~= front + kept);
        assert(path.subrange(0, kept.len() as int) =~= kept);
        kept
    }
}

proof fn lemma_prefix_behind(a: Seq<char>, less: Seq<char>, whole: Seq<char>)
    requires
        less.is_prefix_of(whole),
    ensures
        (a + less).is_prefix_of(a + whole),
{
    assert((a + whole).subrange(0, (a + less).len() as int) =~= a + whole.subrange(
        0,
        less.len() as int,
    ));
}

proof fn lemma_authority(name: Seq<char>, dots: Seq<char>, port: Seq<char>)
    requires
        within_host(name),
        forall|i: int| 0 <= i < dots.len() ==> #[trigger] dots[i] == '.',
        port.len() > 0 ==> port[0] == ':' && forall|j: int|
            1 <= j < port.len() ==> '0' <= #[trigger] port[j] <= '9',
    ensures
        within_host(name + dots + port),
{
    let a = name + dots + port;
    assert forall|i: int| 0 <= i < a.len() implies #[trigger] a[i] != '/' && a[i] != '?' && a[i]
        != '#' by {
        if i < name.len() {
            assert(a[i] == name[i]);
        } else if i < name.len() + dots.len() {
            assert(a[i] == dots[i - name.len()]);
        } else {
            let j = i - name.len() - dots.len();
            assert(a[i] == port[j]);
            if j > 0 {
                assert('0' <= port[j] <= '9');
            }
        }
    }
}

proof fn lemma_no_scheme(s: Seq<char>)
    requires
        !s.contains(':'),
    ensures
        !"https://"@.is_prefix_of(s),
        !"http://"@.is_prefix_of(s),
{
    reveal_strlit("https://");
    reveal_strlit("http://");
    if "https://"@.is_prefix_of(s) {
        assert(s.subrange(0, 8)[5] == ':');
        assert(s[5] == ':');
    }
    if "http://"@.is_prefix_of(s) {
        assert(s.subrange(0, 7)[4] == ':');
        assert(s[4] == ':');
    }
}

/// A URI is reduced to the host that stands in it: `name`, where the URI is
/// made of white space, a scheme or none, `www.` or not, `name`, dots, a port or
/// none, any path, query or fragment, and white space. The conditions say that
/// each part is there only where it is meant to be: without a scheme, the text
/// does not start with one, and so on.
pub proof fn uri_names_its_host(
    before: Seq<char>,
    scheme: Seq<char>,
    www: Seq<char>,
    name: Seq<char>,
    dots: Seq<char>,
    port: Seq<char>,
    path: Seq<char>,
    after: Seq<char>,
)
    requires
        blank_text(before),
        blank_text(after),
        scheme.len() == 0 || scheme == "https://"@ || scheme == "http://"@,
        www.len() == 0 || www == "www."@,
        within_host(name),
        name.len() > 0 ==> name[name.len() - 1] != '.',
        forall|i: int| 0 <= i < dots.len() ==> #[trigger] dots[i] == '.',
        port.len() > 0 ==> port[0] == ':' && forall|j: int|
            1 <= j < port.len() ==> '0' <= #[trigger] port[j] <= '9',
        behind_host(path),
        scheme.len() == 0 ==> !"https://"@.is_prefix_of(www + (name + dots + port + path))
            && !"http://"@.is_prefix_of(www + (name + dots + port + path)),
        www.len() == 0 ==> !"www."@.is_prefix_of(name + dots + port + path),
        port.len() == 0 ==> !ends_in_port(name + dots),
        ({
            let front = scheme + www + (name + dots + port);
            &&& front.len() > 0 ==> !white_space(front[0])
            &&& path.len() == 0 ==> tight(front)
        }),
    ensures
        host(before + (scheme + www + (name + dots + port + path)) + after) == name,
{
    let front = scheme + www + (name + dots + port);
    let a = name + dots + port;
    let raw = before + (scheme + www + (a + path)) + after;
    assert(raw =~= before + (front + path) + after);
    let kept = lemma_trimmed_uri(before, front, path, after);
    assert(front + kept =~= scheme + www + (a + kept));
    let whole = a + path;
    lemma_prefix_behind(a, kept, path);
    lemma_prefix_behind(www, a + kept, whole);
    if scheme.len() == 0 {
        lemma_not_prefix_of_less("https://"@, www + (a + kept), www + whole);
        lemma_not_prefix_of_less("http://"@, www + (a + kept), www + whole);
    }
    if www.len() == 0 {
        lemma_not_prefix_of_less("www."@, a + kept, whole);
    }
    lemma_named(scheme, www, a + kept);
    lemma_authority(name, dots, port);
    lemma_cut_three(a, kept);
    lemma_port_cut(name + dots, port);
    lemma_dots_cut(name, dots);
}

proof fn lemma_page(scheme: Seq<char>, h: Seq<char>, path: Seq<char>)
    requires
        scheme == "https://"@ || scheme == "http://"@,
        h.len() > 0,
        within_host(h),
        !h.contains(':'),
        tight(h),
        h[h.len() - 1] != '.',
        !"www."@.is_prefix_of(h + seq!['/'] + path),
    ensures
        host(scheme + h + seq!['/'] + path) == h,
{
    let none = Seq::<char>::empty();
    let tail = seq!['/'] + path;
    reveal_strlit("https://");
    reveal_strlit("http://");
    assert(h + none =~= h);
    assert(h + none + none =~= h);
    assert(h + none + none + tail =~= h + seq!['/'] + path);
    assert(scheme + none + h =~= scheme + h);
    assert((scheme + h)[0] == 'h');
    uri_names_its_host(none, scheme, none, h, none, none, tail, none);
    assert(none + (scheme + none + (h + none + none + tail)) + none =~= scheme + h + seq!['/']
        + path);
}

/// The page at `h`, however deep its path, names `h`.
pub proof fn page_names_its_host(h: Seq<char>, path: Seq<char>)
    requires
        h.len() > 0,
        within_host(h),
        !h.contains(':'),
        tight(h),
        h[h.len() - 1] != '.',
        !"www."@.is_prefix_of(h + seq!['/'] + path),
    ensures
        host("https://"@ + h + seq!['/'] + path) == h,
        host("http://"@ + h + seq!['/'] + path) == h,
{
    lemma_page("https://"@, h, path);
    lemma_page("http://"@, h, path);
}

/// A name that is written without a scheme, a port or a path is its own host.
pub proof fn bare_name_is_its_host(before: Seq<char>, h: Seq<char>, after: Seq<char>)
    requires
        blank_text(before),
        blank_text(after),
        within_host(h),
        !h.contains(':'),
        tight(h),
        h.len() > 0 ==> h[h.len() - 1] != '.',
        !"www."@.is_prefix_of(h),
    ensures
        host(before + h + after) == h,
{
    let none = Seq::<char>::empty();
    assert(h + none =~= h);
    assert(h + none + none =~= h);
    assert(h + none + none + none =~= h);
    assert(none + h =~= h);
    assert(none + none + h =~= h);
    lemma_no_scheme(h);
    uri_names_its_host(before, none, none, h, none, none, none, after);
}

/// A host has no `/`, `?` or `#`, and does not end in a dot.
pub proof fn hosts_are_clean(raw: Seq<char>)
    ensures
        within_host(host(raw)),
        host(raw).len() > 0 ==> host(raw)[host(raw).len() - 1] != '.',
{
    let named = without_prefix(without_scheme(trimmed(raw)), "www."@);
    let a = before_first(named, '/');
    let b = before_first(a, '?');
    let c = before_first(b, '#');
    lemma_first_at(named, '/', 0);
    lemma_first_at(a, '?', 0);
    lemma_first_at(b, '#', 0);
    let d = without_port(c);
    lemma_last_at(c, ':', c.len() as int);
    lemma_dotless(d, d.len() as int);
    let h = host(raw);
    assert forall|i: int| 0 <= i < h.len() implies #[trigger] h[i] != '/' && h[i] != '?' && h[i]
        != '#' by {
        assert(h[i] == d[i] && d[i] == c[i] && c[i] == b[i] && b[i] == a[i] && a[i] == named[i]);
    }
    if h.len() > 0 {
        assert(h[h.len() - 1] == d[h.len() - 1]);
    }
}

/// A domain is the host in lower case: of ASCII letters, `A` to `Z` become `a`
/// to `z`, and every other character stays as it is. Other hosts are left to
/// Unicode's rules as a whole.
pub proof fn domains_are_hosts_in_lower_case(raw: Seq<char>)
    ensures
        is_ascii_chars(host(raw)) ==> {
            &&& normalized(raw).len() == host(raw).len()
            &&& forall|i: int|
                0 <= i < host(raw).len() ==> if 'A' <= host(raw)[i] <= 'Z' {
                    #[trigger] normalized(raw)[i] as int == host(raw)[i] as int + 32
                } else {
                    normalized(raw)[i] == host(raw)[i]
                }
        },
        !is_ascii_chars(host(raw)) ==> normalized(raw) == unicode_lowercase(host(raw)),
{
}

/// A domain name that is written plainly is looked up as it is written.
pub proof fn plain_domain_is_its_own(before: Seq<char>, d: Seq<char>, after: Seq<char>)
    requires
        blank_text(before),
        blank_text(after),
        d.len() > 0,
        is_ascii_chars(d),
        forall|i: int| 0 <= i < d.len() ==> !('A' <= #[trigger] d[i] <= 'Z'),
        within_host(d),
        !d.contains(':'),
        tight(d),
        d[d.len() - 1] != '.',
        !"www."@.is_prefix_of(d),
    ensures
        normalized(before + d + after) == d,
{
    bare_name_is_its_host(before, d, after);
    let raw = before + d + after;
    domains_are_hosts_in_lower_case(raw);
    assert(normalized(raw) =~= d);
}

} // verus!
