//! String utilities for mangled names and namespaces.
//!
//! These operate on the character sequences of names the emitter handles:
//! namespace stripping, closure-name mangling checks, and the
//! case-insensitive comparisons used for special names.

use vstd::prelude::*;
use vstd::string::StrSliceExecFns;
use vstd::string::StringExecFns;

verus! {

/// Whether the sequence holds a backslash anywhere.
pub open spec fn has_ns_s(s: Seq<char>) -> bool {
    exists|i: int| 0 <= i < s.len() && s[i] == '\\'
}

/// `i` is the position of the last backslash.
pub open spec fn is_last_backslash(s: Seq<char>, i: int) -> bool {
    &&& 0 <= i < s.len()
    &&& s[i] == '\\'
    &&& forall|j: int| i < j < s.len() ==> s[j] != '\\'
}

/// Everything after the last backslash; the sequence itself when it has
/// none.
pub open spec fn strip_ns_s(s: Seq<char>) -> Seq<char> {
    if has_ns_s(s) {
        let i = choose|i: int| is_last_backslash(s, i);
        s.subrange(i + 1, s.len() as int)
    } else {
        s
    }
}

/// The number of leading backslashes.
pub open spec fn leading_backslashes(s: Seq<char>) -> int
    decreases s.len(),
{
    if s.len() == 0 || s[0] != '\\' {
        0
    } else {
        1 + leading_backslashes(s.drop_first())
    }
}

/// A name is in XHP form when it starts with a colon.
pub fn is_xhp(name: &str) -> (r: bool)
    ensures
        r == (name@.len() > 0 && name@[0] == ':'),
{
    let n = name.unicode_len();
    n > 0 && name.get_char(0) == ':'
}

/// Whether the name mentions a namespace separator.
pub fn has_ns(s: &str) -> (r: bool)
    ensures
        r == has_ns_s(s@),
{
    let n = s.unicode_len();
    let mut j: usize = 0;
    while j < n
        invariant
            n == s@.len(),
            0 <= j <= n,
            forall|i: int| 0 <= i < j ==> s@[i] != '\\',
        decreases n - j,
    {
        if s.get_char(j) == '\\' {
            return true;
        }
        j += 1;
    }
    false
}

/// Strip everything up to and including the last namespace separator.
pub fn strip_ns(s: &str) -> (r: &str)
    ensures
        r@ == strip_ns_s(s@),
{
    let n = s.unicode_len();
    let mut j: usize = n;
    while j > 0
        invariant
            n == s@.len(),
            0 <= j <= n,
            forall|i: int| j <= i < n ==> s@[i] != '\\',
        decreases j,
    {
        if s.get_char(j - 1) == '\\' {
            proof {
                assert(is_last_backslash(s@, j - 1));
                let w = choose|i: int| is_last_backslash(s@, i);
                assert(s@[w] == '\\');
                assert(w == j - 1);
            }
            return s.substring_char(j, n);
        }
        j -= 1;
    }
    proof {
        assert(!has_ns_s(s@));
    }
    s
}

/// Strip every leading global-namespace separator.
pub fn strip_global_ns(s: &str) -> (r: &str)
    ensures
        r@ == s@.subrange(leading_backslashes(s@), s@.len() as int),
{
    let n = s.unicode_len();
    let mut j: usize = 0;
    while j < n && s.get_char(j) == '\\'
        invariant
            n == s@.len(),
            0 <= j <= n,
            forall|i: int| 0 <= i < j ==> s@[i] == '\\',
        decreases n - j,
    {
        j += 1;
    }
    proof {
        lemma_leading_backslashes_at(s@, j as int);
    }
    s.substring_char(j, n)
}

/// The count of leading backslashes is the first index holding none.
proof fn lemma_leading_backslashes_at(s: Seq<char>, j: int)
    requires
        0 <= j <= s.len(),
        forall|i: int| 0 <= i < j ==> s[i] == '\\',
        j < s.len() ==> s[j] != '\\',
    ensures
        leading_backslashes(s) == j,
    decreases j,
{
    if j == 0 {
    } else {
        assert(s[0] == '\\');
        assert(forall|i: int| 0 <= i < j - 1 ==> s.drop_first()[i] == s[i + 1]);
        assert(j - 1 < s.drop_first().len() ==> s.drop_first()[j - 1] != '\\');
        lemma_leading_backslashes_at(s.drop_first(), j - 1);
    }
}

/// Whether `s` starts with the characters of `p`.
fn str_has_prefix(s: &str, p: &str) -> (r: bool)
    ensures
        r == (s@.len() >= p@.len() && s@.subrange(0, p@.len() as int) == p@),
{
    let n = s.unicode_len();
    let m = p.unicode_len();
    if n < m {
        return false;
    }
    let mut j: usize = 0;
    while j < m
        invariant
            n == s@.len(),
            m == p@.len(),
            m <= n,
            0 <= j <= m,
            forall|i: int| 0 <= i < j ==> s@[i] == p@[i],
        decreases m - j,
    {
        if s.get_char(j) != p.get_char(j) {
            proof {
                assert(s@.subrange(0, m as int)[j as int] != p@[j as int]);
            }
            return false;
        }
        j += 1;
    }
    proof {
        assert(s@.subrange(0, m as int) =~= p@);
    }
    true
}

/// Remove one leading `HH` namespace, with or without a leading separator.
pub fn strip_hh_ns(s: &str) -> (r: &str)
    ensures
        ({
            let n = s@.len() as int;
            &&& (s@.len() >= 4 && s@.subrange(0, 4) == "\\HH\\"@ ==> r@ == s@.subrange(4, n))
            &&& (!(s@.len() >= 4 && s@.subrange(0, 4) == "\\HH\\"@) && s@.len() >= 3
                && s@.subrange(0, 3) == "HH\\"@ ==> r@ == s@.subrange(3, n))
            &&& (!(s@.len() >= 4 && s@.subrange(0, 4) == "\\HH\\"@) && !(s@.len() >= 3
                && s@.subrange(0, 3) == "HH\\"@) ==> r@ == s@)
        }),
{
    proof {
        reveal_strlit("\\HH\\");
        reveal_strlit("HH\\");
    }
    let n = s.unicode_len();
    if str_has_prefix(s, "\\HH\\") {
        s.substring_char(4, n)
    } else if str_has_prefix(s, "HH\\") {
        s.substring_char(3, n)
    } else {
        s
    }
}

/// `i` is the position of the first left angle bracket.
pub open spec fn is_first_lt(s: Seq<char>, i: int) -> bool {
    &&& 0 <= i < s.len()
    &&& s[i] == '<'
    &&& forall|j: int| 0 <= j < i ==> s[j] != '<'
}

/// `i` is the position of the last right angle bracket.
pub open spec fn is_last_gt(s: Seq<char>, i: int) -> bool {
    &&& 0 <= i < s.len()
    &&& s[i] == '>'
    &&& forall|j: int| i < j < s.len() ==> s[j] != '>'
}

/// The sequence with its type-argument list removed: everything from the
/// first `<` through the last `>` after it, when both exist.
pub open spec fn stripped_type_list(s: Seq<char>) -> Seq<char> {
    if exists|i: int, j: int| is_first_lt(s, i) && is_last_gt(s, j) && i < j {
        let (i, j) = choose|i: int, j: int| is_first_lt(s, i) && is_last_gt(s, j) && i < j;
        s.subrange(0, i) + s.subrange(j + 1, s.len() as int)
    } else {
        s
    }
}

/// Remove a trailing type-argument list.
pub fn strip_type_list(s: &str) -> (r: String)
    ensures
        r@ == stripped_type_list(s@),
{
    let n = s.unicode_len();
    let mut lt: usize = 0;
    while lt < n && s.get_char(lt) != '<'
        invariant
            n == s@.len(),
            0 <= lt <= n,
            forall|i: int| 0 <= i < lt ==> s@[i] != '<',
        decreases n - lt,
    {
        lt += 1;
    }
    let mut gt: usize = n;
    while gt > 0 && s.get_char(gt - 1) != '>'
        invariant
            n == s@.len(),
            0 <= gt <= n,
            forall|i: int| gt <= i < n ==> s@[i] != '>',
        decreases gt,
    {
        gt -= 1;
    }
    if lt < n && gt > 0 && lt < gt - 1 {
        proof {
            assert(is_first_lt(s@, lt as int));
            assert(is_last_gt(s@, gt - 1 as int));
            assert forall|i: int, j: int|
                is_first_lt(s@, i) && is_last_gt(s@, j) && i < j implies i == lt as int && j == gt
                - 1 by {
                assert(s@[i] == '<' && s@[j] == '>');
            }
            let (i, j) = choose|i: int, j: int|
                is_first_lt(s@, i) && is_last_gt(s@, j) && i < j;
            assert(i == lt as int && j == gt - 1);
        }
        let prefix = s.substring_char(0, lt);
        let suffix = s.substring_char(gt, n);
        String::from_str(prefix).concat(suffix)
    } else {
        proof {
            if exists|i: int, j: int| is_first_lt(s@, i) && is_last_gt(s@, j) && i < j {
                let (i, j) = choose|i: int, j: int|
                    is_first_lt(s@, i) && is_last_gt(s@, j) && i < j;
                assert(s@[i] == '<' && s@[j] == '>');
                assert(i == lt as int);
                assert(j == gt - 1);
                assert(false);
            }
        }
        String::from_str(s)
    }
}

/// ASCII-lowered code point, for case-insensitive comparison.
pub open spec fn lower_code(c: char) -> int {
    if 'A' <= c && c <= 'Z' {
        c as int + 32
    } else {
        c as int
    }
}

/// Equality of two sequences up to ASCII case.
pub open spec fn ascii_caseless_eq(a: Seq<char>, b: Seq<char>) -> bool {
    a.len() == b.len() && forall|i: int|
        0 <= i < a.len() ==> lower_code(a[i]) == lower_code(b[i])
}

/// Compare two names character by character up to ASCII case.
fn eq_ignore_ascii_case(a: &str, b: &str) -> (r: bool)
    ensures
        r == ascii_caseless_eq(a@, b@),
{
    let na = a.unicode_len();
    let nb = b.unicode_len();
    if na != nb {
        return false;
    }
    let mut j: usize = 0;
    while j < na
        invariant
            na == a@.len(),
            nb == b@.len(),
            na == nb,
            0 <= j <= na,
            forall|i: int| 0 <= i < j ==> lower_code(a@[i]) == lower_code(b@[i]),
        decreases na - j,
    {
        let ca = a.get_char(j);
        let cb = b.get_char(j);
        let la = if 'A' <= ca && ca <= 'Z' {
            (ca as u32) + 32
        } else {
            ca as u32
        };
        let lb = if 'A' <= cb && cb <= 'Z' {
            (cb as u32) + 32
        } else {
            cb as u32
        };
        if la != lb {
            return false;
        }
        j += 1;
    }
    true
}

/// Compare two names, optionally ignoring ASCII case, optionally comparing
/// only what follows the last namespace separator of each.
pub fn cmp(s1: &str, s2: &str, case_sensitive: bool, ignore_ns: bool) -> (r: bool)
    ensures
        ({
            let a = if ignore_ns {
                strip_ns_s(s1@)
            } else {
                s1@
            };
            let b = if ignore_ns {
                strip_ns_s(s2@)
            } else {
                s2@
            };
            r == (if case_sensitive {
                a == b
            } else {
                ascii_caseless_eq(a, b)
            })
        }),
{
    let c1 = if ignore_ns {
        strip_ns(s1)
    } else {
        s1
    };
    let c2 = if ignore_ns {
        strip_ns(s2)
    } else {
        s2
    };
    if case_sensitive {
        str_eq(c1, c2)
    } else {
        eq_ignore_ascii_case(c1, c2)
    }
}

/// Character-wise equality of two names.
fn str_eq(a: &str, b: &str) -> (r: bool)
    ensures
        r == (a@ == b@),
{
    let na = a.unicode_len();
    let nb = b.unicode_len();
    if na != nb {
        return false;
    }
    let mut j: usize = 0;
    while j < na
        invariant
            na == a@.len(),
            nb == b@.len(),
            na == nb,
            0 <= j <= na,
            forall|i: int| 0 <= i < j ==> a@[i] == b@[i],
        decreases na - j,
    {
        if a.get_char(j) != b.get_char(j) {
            return false;
        }
        j += 1;
    }
    proof {
        assert(a@ =~= b@);
    }
    true
}

pub fn is_self(s: &str) -> (r: bool)
    ensures
        r == ascii_caseless_eq(s@, "self"@),
{
    proof {
        reveal_strlit("self");
    }
    eq_ignore_ascii_case(s, "self")
}

pub fn is_parent(s: &str) -> (r: bool)
    ensures
        r == ascii_caseless_eq(s@, "parent"@),
{
    proof {
        reveal_strlit("parent");
    }
    eq_ignore_ascii_case(s, "parent")
}

pub fn is_static(s: &str) -> (r: bool)
    ensures
        r == ascii_caseless_eq(s@, "static"@),
{
    proof {
        reveal_strlit("static");
    }
    eq_ignore_ascii_case(s, "static")
}

pub fn is_class(s: &str) -> (r: bool)
    ensures
        r == ascii_caseless_eq(s@, "class"@),
{
    proof {
        reveal_strlit("class");
    }
    eq_ignore_ascii_case(s, "class")
}

/// Join a namespace and a name with a separator.
pub fn prefix_namespace(n: &str, s: &str) -> (r: String)
    ensures
        r@ == n@ + "\\"@ + s@,
{
    String::from_str(n).concat("\\").concat(s)
}

/// The mangled name of a method-caller wrapper.
pub fn mangle_meth_caller(mangled_cls_name: &str, f_name: &str) -> (r: String)
    ensures
        r@ == "\\MethCaller$"@ + mangled_cls_name@ + "$"@ + f_name@,
{
    String::from_str("\\MethCaller$").concat(mangled_cls_name).concat("$").concat(f_name)
}

/// The mangled name of a generated class: `prefix$scope`, with `#index`
/// appended for every copy after the first.
pub fn mangle_class(prefix: &str, scope: &str, idx: u32) -> (r: String)
    ensures
        r@ == (if idx == 1 {
            prefix@ + "$"@ + scope@
        } else {
            prefix@ + "$"@ + scope@ + "#"@ + crate::integer::dec_string(idx as int)
        }),
{
    let base = String::from_str(prefix).concat("$").concat(scope);
    if idx == 1 {
        base
    } else {
        let num = crate::integer::render_decimal(idx as i64);
        base.concat("#").concat(num.as_str())
    }
}

/// The mangled name of a closure class.
pub fn mangle_closure(scope: &str, idx: u32) -> (r: String)
    ensures
        r@ == (if idx == 1 {
            "Closure"@ + "$"@ + scope@
        } else {
            "Closure"@ + "$"@ + scope@ + "#"@ + crate::integer::dec_string(idx as int)
        }),
{
    mangle_class("Closure", scope, idx)
}

/// Whether a mangled name denotes a closure class.
pub open spec fn is_closure_name_s(s: Seq<char>) -> bool {
    s.len() >= 8 && s.subrange(0, 8) == "Closure$"@
}

pub fn is_closure_name(s: &str) -> (r: bool)
    ensures
        r == is_closure_name_s(s@),
{
    proof {
        reveal_strlit("Closure$");
    }
    str_has_prefix(s, "Closure$")
}

/// `i` is the position of the first hash sign.
pub open spec fn is_first_hash(s: Seq<char>, i: int) -> bool {
    &&& 0 <= i < s.len()
    &&& s[i] == '#'
    &&& forall|j: int| 0 <= j < i ==> s[j] != '#'
}

/// The scope part of a mangled closure name: what stands between the
/// `Closure$` prefix and the `#index` suffix, when the suffix is there.
pub open spec fn unmangled_scope(s: Seq<char>) -> Seq<char> {
    if exists|h: int| is_first_hash(s, h) {
        let h = choose|h: int| is_first_hash(s, h);
        s.subrange(8, h)
    } else {
        s.subrange(8, s.len() as int)
    }
}

/// The scope part of a mangled closure name, if the name is a closure name
/// at all.
pub fn unmangle_closure(mangled_name: &str) -> (r: Option<&str>)
    ensures
        r is Some <==> is_closure_name_s(mangled_name@),
        r is Some ==> r->0@ == unmangled_scope(mangled_name@),
{
    proof {
        reveal_strlit("Closure$");
    }
    if is_closure_name(mangled_name) {
        let n = mangled_name.unicode_len();
        let mut h: usize = 0;
        while h < n && mangled_name.get_char(h) != '#'
            invariant
                n == mangled_name@.len(),
                0 <= h <= n,
                forall|i: int| 0 <= i < h ==> mangled_name@[i] != '#',
            decreases n - h,
        {
            h += 1;
        }
        proof {
            reveal_strlit("Closure$");
            let s0 = mangled_name@;
            assert(s0.len() >= 8);
            assert forall|i: int| 0 <= i < 8 implies s0[i] != '#' by {
                assert(s0.subrange(0, 8)[i] == s0[i]);
                assert(s0[i] == "Closure$"@[i]);
            }
            if h < n {
                assert(s0[h as int] == '#');
                assert(h >= 8);
                assert(is_first_hash(s0, h as int));
                assert forall|i: int| is_first_hash(s0, i) implies i == h as int by {
                    assert(s0[i] == '#');
                }
                let w = choose|i: int| is_first_hash(s0, i);
                assert(w == h as int);
            } else {
                assert(!(exists|i: int| is_first_hash(s0, i)));
            }
        }
        Some(mangled_name.substring_char(8, if h < n {
            h
        } else {
            n
        }))
    } else {
        None
    }
}

/// Strip one leading dollar sign from a local-variable name.
pub fn strip_dollar(s: &str) -> (r: &str)
    ensures
        r@ == (if s@.len() > 0 && s@[0] == '$' {
            s@.subrange(1, s@.len() as int)
        } else {
            s@
        }),
{
    let n = s.unicode_len();
    if n > 0 && s.get_char(0) == '$' {
        s.substring_char(1, n)
    } else {
        s
    }
}

/// Character sequence of a name lowered by the standard library's Unicode
/// lowercasing; the result depends on the characters alone.
pub uninterp spec fn lower_of(s: Seq<char>) -> Seq<char>;

/// Relies on str::to_lowercase: Unicode lowercasing of each character, a
/// function of the input characters alone.
#[verifier::external_body]
fn lowercase(s: &str) -> (r: String)
    ensures
        r@ == lower_of(s@),
{
    s.to_lowercase()
}

/// Restore the canonical casing of a built-in collection name; any other
/// name is handed back unchanged.
pub fn fix_casing(s: &str) -> (r: &str)
    ensures
        r@ == (if lower_of(s@) == "vector"@ {
            "Vector"@
        } else if lower_of(s@) == "immvector"@ {
            "ImmVector"@
        } else if lower_of(s@) == "set"@ {
            "Set"@
        } else if lower_of(s@) == "immset"@ {
            "ImmSet"@
        } else if lower_of(s@) == "map"@ {
            "Map"@
        } else if lower_of(s@) == "immmap"@ {
            "ImmMap"@
        } else if lower_of(s@) == "pair"@ {
            "Pair"@
        } else {
            s@
        }),
{
    let low = lowercase(s);
    if str_eq(low.as_str(), "vector") {
        "Vector"
    } else if str_eq(low.as_str(), "immvector") {
        "ImmVector"
    } else if str_eq(low.as_str(), "set") {
        "Set"
    } else if str_eq(low.as_str(), "immset") {
        "ImmSet"
    } else if str_eq(low.as_str(), "map") {
        "Map"
    } else if str_eq(low.as_str(), "immmap") {
        "ImmMap"
    } else if str_eq(low.as_str(), "pair") {
        "Pair"
    } else {
        s
    }
}

} // verus!
