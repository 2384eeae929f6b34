//! The export engine: plans the materialization of a batch of named notes
//! as `.md` documents in a target folder, sanitizing names and resolving
//! collisions deterministically with ` (2)`, ` (3)`, ... suffixes.

use crate::dirmodel::DirModel;
use crate::names::{md_name, path_ext, path_extension, stem_of};
use crate::text::{
    char_is_alphanumeric, is_unicode_alnum, lower, lower_char, lower_str, push_char, str_eq,
};
use vstd::prelude::*;
use vstd::seq_lib::*;
use vstd::string::*;

verus! {

/// The character for one decimal digit.
pub open spec fn digit_char(d: int) -> char {
    if d == 0 {
        '0'
    } else if d == 1 {
        '1'
    } else if d == 2 {
        '2'
    } else if d == 3 {
        '3'
    } else if d == 4 {
        '4'
    } else if d == 5 {
        '5'
    } else if d == 6 {
        '6'
    } else if d == 7 {
        '7'
    } else if d == 8 {
        '8'
    } else {
        '9'
    }
}

/// Decimal rendering of a number, most significant digit first.
pub open spec fn dec(n: nat) -> Seq<char>
    decreases n,
{
    if n < 10 {
        seq![digit_char(n as int)]
    } else {
        dec(n / 10).push(digit_char((n % 10) as int))
    }
}

/// Whether a character is a decimal digit.
pub open spec fn is_digit(c: char) -> bool {
    48 <= c as u32 && c as u32 <= 57
}

proof fn lemma_dec_len(n: nat)
    ensures
        dec(n).len() >= 1,
    decreases n,
{
    if n >= 10 {
        lemma_dec_len(n / 10);
    }
}

proof fn lemma_dec_digits(n: nat)
    ensures
        forall|k: int| 0 <= k < dec(n).len() ==> is_digit(#[trigger] dec(n)[k]),
    decreases n,
{
    if n >= 10 {
        lemma_dec_digits(n / 10);
        assert(forall|k: int|
            0 <= k < dec(n / 10).len() ==> #[trigger] dec(n)[k] == dec(n / 10)[k]);
    }
}

proof fn lemma_dec_injective(a: nat, b: nat)
    requires
        dec(a) == dec(b),
    ensures
        a == b,
    decreases a,
{
    lemma_dec_len(a);
    lemma_dec_len(b);
    if a < 10 && b < 10 {
        assert(dec(a)[0] == digit_char(a as int));
        assert(dec(b)[0] == digit_char(b as int));
    } else if a < 10 {
        lemma_dec_len(b / 10);
        assert(dec(b).len() == dec(b / 10).len() + 1);
    } else if b < 10 {
        lemma_dec_len(a / 10);
        assert(dec(a).len() == dec(a / 10).len() + 1);
    } else {
        assert(dec(a).last() == digit_char((a % 10) as int));
        assert(dec(b).last() == digit_char((b % 10) as int));
        assert(a % 10 == b % 10);
        assert(dec(a).drop_last() =~= dec(a / 10));
        assert(dec(b).drop_last() =~= dec(b / 10));
        lemma_dec_injective(a / 10, b / 10);
        assert(a == (a / 10) * 10 + a % 10);
        assert(b == (b / 10) * 10 + b % 10);
    }
}

fn digit_char_exec(d: u128) -> (c: char)
    requires
        d < 10,
    ensures
        c == digit_char(d as int),
{
    if d == 0 {
        '0'
    } else if d == 1 {
        '1'
    } else if d == 2 {
        '2'
    } else if d == 3 {
        '3'
    } else if d == 4 {
        '4'
    } else if d == 5 {
        '5'
    } else if d == 6 {
        '6'
    } else if d == 7 {
        '7'
    } else if d == 8 {
        '8'
    } else {
        '9'
    }
}

/// Renders a number in decimal.
pub fn dec_string(n: u128) -> (r: String)
    ensures
        r@ == dec(n as nat),
    decreases n,
{
    if n < 10 {
        let mut s = String::new();
        push_char(&mut s, digit_char_exec(n));
        proof {
            assert(s@ =~= seq![digit_char(n as int)]);
        }
        s
    } else {
        let mut s = dec_string(n / 10);
        push_char(&mut s, digit_char_exec(n % 10));
        s
    }
}

/// The characters the sanitizer keeps: alphanumeric, space, `-` and `_`.
pub open spec fn keep_char(c: char) -> bool {
    is_unicode_alnum(c) || c == ' ' || c == '-' || c == '_'
}

/// A note name after sanitization: every other character removed.
pub open spec fn sanitized(s: Seq<char>) -> Seq<char> {
    s.filter(|c: char| keep_char(c))
}

/// Leading spaces removed.
pub open spec fn trim_left(s: Seq<char>) -> Seq<char>
    decreases s.len(),
{
    if s.len() > 0 && s[0] == ' ' {
        trim_left(s.drop_first())
    } else {
        s
    }
}

/// Trailing spaces removed.
pub open spec fn trim_right(s: Seq<char>) -> Seq<char>
    decreases s.len(),
{
    if s.len() > 0 && s.last() == ' ' {
        trim_right(s.drop_last())
    } else {
        s
    }
}

/// Leading and trailing spaces removed. After sanitization spaces are the
/// only whitespace left, so this is exactly the trim the export applies.
pub open spec fn trim_spaces(s: Seq<char>) -> Seq<char> {
    trim_right(trim_left(s))
}

proof fn lemma_trim_left_at(s: Seq<char>, lo: int)
    requires
        0 <= lo <= s.len(),
        forall|k: int| 0 <= k < lo ==> s[k] == ' ',
        lo == s.len() || s[lo] != ' ',
    ensures
        trim_left(s) == s.subrange(lo, s.len() as int),
    decreases lo,
{
    if lo == 0 {
        assert(s.subrange(0, s.len() as int) =~= s);
    } else {
        let t = s.drop_first();
        lemma_trim_left_at(t, lo - 1);
        assert(t.subrange(lo - 1, t.len() as int) =~= s.subrange(lo, s.len() as int));
    }
}

proof fn lemma_trim_right_at(s: Seq<char>, hi: int)
    requires
        0 <= hi <= s.len(),
        forall|k: int| hi <= k < s.len() ==> s[k] == ' ',
        hi == 0 || s[hi - 1] != ' ',
    ensures
        trim_right(s) == s.subrange(0, hi),
    decreases s.len(),
{
    if hi == s.len() {
        assert(s.subrange(0, hi) =~= s);
    } else {
        assert(s.last() == ' ');
        lemma_trim_right_at(s.drop_last(), hi);
        assert(s.drop_last().subrange(0, hi) =~= s.subrange(0, hi));
    }
}

/// The base stem a note's name yields: the sanitized, trimmed name, or
/// `Untitled` when nothing is left.
pub open spec fn base_name(name: Seq<char>) -> Seq<char> {
    if trim_spaces(sanitized(name)).len() == 0 {
        "Untitled"@
    } else {
        trim_spaces(sanitized(name))
    }
}

/// A name that is blank after sanitization and trimming exports as
/// `Untitled`.
pub proof fn lemma_blank_name_untitled(name: Seq<char>)
    requires
        trim_spaces(sanitized(name)).len() == 0,
    ensures
        base_name(name) == "Untitled"@,
{
}

/// Computes the base stem of one note name.
pub fn base_name_exec(name: &str) -> (r: String)
    ensures
        r@ == base_name(name@),
{
    let n = name.unicode_len();
    let mut safe = String::new();
    let mut i: usize = 0;
    while i < n
        invariant
            0 <= i <= n,
            n == name@.len(),
            safe@ == name@.subrange(0, i as int).filter(|c: char| keep_char(c)),
        decreases n - i,
    {
        let ghost prefix = name@.subrange(0, i as int);
        let ghost next = name@.subrange(0, i + 1);
        proof {
            assert(next.drop_last() =~= prefix);
            assert(next.last() == name@[i as int]);
            reveal(Seq::filter);
        }
        let c = name.get_char(i);
        let keep = if char_is_alphanumeric(c) {
            true
        } else {
            c == ' ' || c == '-' || c == '_'
        };
        if keep {
            push_char(&mut safe, c);
        }
        i = i + 1;
    }
    proof {
        assert(name@.subrange(0, n as int) =~= name@);
    }
    let s = safe.as_str();
    let m = s.unicode_len();
    let mut lo: usize = 0;
    while lo < m && s.get_char(lo) == ' '
        invariant
            0 <= lo <= m,
            m == s@.len(),
            forall|k: int| 0 <= k < lo ==> s@[k] == ' ',
        decreases m - lo,
    {
        lo = lo + 1;
    }
    let mut hi: usize = m;
    while hi > lo && s.get_char(hi - 1) == ' '
        invariant
            lo <= hi <= m,
            m == s@.len(),
            forall|k: int| hi <= k < m ==> s@[k] == ' ',
        decreases hi,
    {
        hi = hi - 1;
    }
    proof {
        lemma_trim_left_at(s@, lo as int);
        let t = s@.subrange(lo as int, m as int);
        lemma_trim_right_at(t, hi - lo);
        assert(t.subrange(0, hi - lo) =~= s@.subrange(lo as int, hi as int));
    }
    if lo == hi {
        String::from_str("Untitled")
    } else {
        String::from_str(s.substring_char(lo, hi))
    }
}

/// The stem tried for collision suffix `n`: `<base> (<n>)`.
pub open spec fn numbered_stem(base: Seq<char>, n: nat) -> Seq<char> {
    base + " ("@ + dec(n) + ")"@
}

fn numbered_stem_exec(base: &str, n: u128) -> (r: String)
    ensures
        r@ == numbered_stem(base@, n as nat),
{
    let d = dec_string(n);
    let r = String::from_str(base).concat(" (").concat(d.as_str()).concat(")");
    proof {
        assert(r@ =~= numbered_stem(base@, n as nat));
    }
    r
}

/// Distinct suffixes give distinct stems, even compared without regard to
/// ASCII case: the digits are untouched by lowering.
proof fn lemma_lower_numbered_inj(base: Seq<char>, i: nat, j: nat)
    requires
        lower(numbered_stem(base, i)) == lower(numbered_stem(base, j)),
    ensures
        i == j,
{
    reveal_strlit(" (");
    reveal_strlit(")");
    lemma_dec_len(i);
    lemma_dec_len(j);
    lemma_dec_digits(i);
    lemma_dec_digits(j);
    let si = numbered_stem(base, i);
    let sj = numbered_stem(base, j);
    assert(si.len() == base.len() + 2 + dec(i).len() + 1);
    assert(sj.len() == base.len() + 2 + dec(j).len() + 1);
    assert(lower(si).len() == si.len());
    assert(lower(sj).len() == sj.len());
    assert(dec(i).len() == dec(j).len());
    assert forall|k: int| 0 <= k < dec(i).len() implies dec(i)[k] == dec(j)[k] by {
        let p = base.len() + 2 + k;
        assert(si[p] == dec(i)[k]);
        assert(sj[p] == dec(j)[k]);
        assert(lower(si)[p] == lower_char(si[p]));
        assert(lower(sj)[p] == lower_char(sj[p]));
        assert(is_digit(dec(i)[k]) && is_digit(dec(j)[k]));
    }
    assert(dec(i) =~= dec(j));
    lemma_dec_injective(i, j);
}

/// Whether the list holds exactly this string.
pub fn contains_str(v: &Vec<String>, s: &str) -> (r: bool)
    ensures
        r == v@.map_values(|x: String| x@).contains(s@),
{
    let n = v.len();
    let mut i: usize = 0;
    while i < n
        invariant
            0 <= i <= n,
            n == v@.len(),
            forall|j: int| 0 <= j < i ==> v@[j]@ != s@,
        decreases n - i,
    {
        if str_eq(v[i].as_str(), s) {
            proof {
                let mv = v@.map_values(|x: String| x@);
                assert(mv.contains(s@)) by {
                    assert(mv[i as int] == s@);
                }
            }
            return true;
        }
        i = i + 1;
    }
    proof {
        let mv = v@.map_values(|x: String| x@);
        if mv.contains(s@) {
            let j = choose|j: int| 0 <= j < mv.len() && mv[j] == s@;
            assert(v@[j]@ != s@);
        }
    }
    false
}

/// The chosen stem is right for this base against this list of used
/// (already lowered) stems: the stem is free, and it is the base itself when
/// the base is free, else the first free numbered alternative.
pub open spec fn stem_choice_ok(stem: Seq<char>, base: Seq<char>, used: Seq<Seq<char>>) -> bool {
    &&& !used.contains(lower(stem))
    &&& (stem == base || (used.contains(lower(base)) && (exists|n: nat|
        n >= 2 && stem == numbered_stem(base, n) && (forall|m: nat|
            2 <= m < n ==> used.contains(lower(#[trigger] numbered_stem(base, m)))))))
}

/// Picks the first stem that is free against `used` (a list of lowered
/// stems): the base itself, else `<base> (2)`, `<base> (3)`, and so on.
pub fn resolve_stem(base: &str, used: &Vec<String>) -> (r: String)
    ensures
        stem_choice_ok(r@, base@, used@.map_values(|x: String| x@)),
{
    let ghost usedv = used@.map_values(|x: String| x@);
    let lbase = lower_str(base);
    if !contains_str(used, lbase.as_str()) {
        return String::from_str(base);
    }
    let ghost used_set = usedv.to_set();
    let used_len = used.len();
    proof {
        vstd::seq_lib::seq_to_set_is_finite(usedv);
        usedv.lemma_cardinality_of_set();
    }
    let mut n: u128 = 2;
    let ghost mut cands: Set<Seq<char>> = Set::empty();
    loop
        invariant
            2 <= n,
            usedv == used@.map_values(|x: String| x@),
            usedv.contains(lower(base@)),
            used_set == usedv.to_set(),
            used_set.finite(),
            used_set.len() <= usedv.len(),
            usedv.len() == used_len,
            n <= usedv.len() + 2,
            cands.finite(),
            cands.len() == n - 2,
            cands.subset_of(used_set),
            forall|x: Seq<char>|
                #[trigger] cands.contains(x) <==> (exists|m: nat|
                    2 <= m < n && x == lower(#[trigger] numbered_stem(base@, m))),
            forall|m: nat|
                2 <= m < n ==> usedv.contains(lower(#[trigger] numbered_stem(base@, m))),
        decreases usedv.len() + 2 - n,
    {
        let cand = numbered_stem_exec(base, n);
        let lcand = lower_str(cand.as_str());
        if !contains_str(used, lcand.as_str()) {
            proof {
                assert(stem_choice_ok(cand@, base@, usedv)) by {
                    assert(n as nat >= 2 && cand@ == numbered_stem(base@, n as nat) && (
                    forall|m: nat|
                        2 <= m < n as nat ==> usedv.contains(
                            lower(#[trigger] numbered_stem(base@, m)),
                        )));
                }
            }
            return cand;
        }
        proof {
            assert(!cands.contains(lcand@)) by {
                if cands.contains(lcand@) {
                    let m = choose|m: nat|
                        2 <= m < n && lcand@ == lower(#[trigger] numbered_stem(base@, m));
                    lemma_lower_numbered_inj(base@, m, n as nat);
                }
            }
            assert(used_set.contains(lcand@));
            cands = cands.insert(lcand@);
            vstd::set_lib::lemma_len_subset(cands, used_set);
            assert forall|x: Seq<char>| #[trigger]
                cands.contains(x) implies (exists|m: nat|
                2 <= m < n + 1 && x == lower(#[trigger] numbered_stem(base@, m))) by {
                if x == lcand@ {
                    assert(2 <= n as nat && ((n as nat) as int) < n + 1 && x == lower(
                        numbered_stem(base@, n as nat),
                    ));
                }
            }
            assert forall|x: Seq<char>|
                (exists|m: nat|
                    2 <= m < n + 1 && x == lower(
                        #[trigger] numbered_stem(base@, m),
                    )) implies #[trigger] cands.contains(x) by {
                let m = choose|m: nat|
                    2 <= m < n + 1 && x == lower(#[trigger] numbered_stem(base@, m));
                if m < n {
                } else {
                    assert(x == lcand@);
                }
            }
        }
        n = n + 1;
    }
}

/// One note handed to the export engine.
pub struct ExportNote {
    pub name: String,
    pub content: String,
}

/// One planned file: the resolved stem and the content to write under
/// `<stem>.md`.
pub struct PlannedFile {
    pub stem: String,
    pub content: String,
}

/// Whether a file name is a markdown document: its extension, compared
/// without regard to ASCII case, is `md`.
pub open spec fn is_md_name(n: Seq<char>) -> bool {
    match path_ext(n) {
        Some(e) => lower(e) == "md"@,
        None => false,
    }
}

/// The stems of the markdown documents among a directory's names.
pub open spec fn md_stems(names: Seq<Seq<char>>) -> Seq<Seq<char>> {
    names.filter(|n: Seq<char>| is_md_name(n)).map_values(|n: Seq<char>| stem_of(n))
}

/// The used-stem list the resolution of note `i` sees: the lowered stems of
/// the pre-existing markdown files, then the lowered stems chosen for the
/// earlier notes of the batch.
pub open spec fn used_before(existing: Seq<Seq<char>>, chosen: Seq<Seq<char>>, i: int) -> Seq<
    Seq<char>,
> {
    existing.map_values(|s: Seq<char>| lower(s)) + chosen.subrange(0, i).map_values(
        |s: Seq<char>| lower(s),
    )
}

/// The stems of a plan, in plan order.
pub open spec fn plan_stems(p: Seq<PlannedFile>) -> Seq<Seq<char>> {
    p.map_values(|f: PlannedFile| f.stem@)
}

/// Collects the stems of the markdown files among a directory listing.
pub fn md_stems_exec(names: &Vec<String>) -> (r: Vec<String>)
    ensures
        r@.map_values(|s: String| s@) == md_stems(names@.map_values(|s: String| s@)),
{
    let ghost nv = names@.map_values(|s: String| s@);
    let n = names.len();
    let mut out: Vec<String> = Vec::new();
    let mut i: usize = 0;
    while i < n
        invariant
            0 <= i <= n,
            n == names@.len(),
            nv == names@.map_values(|s: String| s@),
            out@.map_values(|s: String| s@) =~= md_stems(nv.subrange(0, i as int)),
        decreases n - i,
    {
        let ghost prefix = nv.subrange(0, i as int);
        let ghost next = nv.subrange(0, i + 1);
        proof {
            assert(next.drop_last() =~= prefix);
            assert(next.last() == nv[i as int]);
            assert(nv[i as int] == names@[i as int]@);
            reveal(Seq::filter);
        }
        let name = &names[i];
        let keep = match path_extension(name.as_str()) {
            Some(e) => {
                let le = lower_str(e.as_str());
                str_eq(le.as_str(), "md")
            },
            None => false,
        };
        if keep {
            out.push(crate::names::file_stem(name.as_str()));
            proof {
                assert(md_stems(next) =~= md_stems(prefix).push(stem_of(name@)));
            }
        } else {
            proof {
                assert(md_stems(next) =~= md_stems(prefix));
            }
        }
        i = i + 1;
    }
    proof {
        assert(nv.subrange(0, n as int) =~= nv);
    }
    out
}

/// Plans an export batch: for each note, in input order, the sanitized and
/// trimmed name (or `Untitled`) gets the first suffix that collides,
/// case-insensitively, neither with the existing stems nor with a stem
/// chosen earlier in the batch.
pub fn plan_export(existing_stems: &Vec<String>, notes: &Vec<ExportNote>) -> (plan: Vec<
    PlannedFile,
>)
    ensures
        plan@.len() == notes@.len(),
        forall|i: int| 0 <= i < notes@.len() ==> #[trigger] plan@[i].content@ == notes@[i].content@,
        forall|i: int|
            0 <= i < notes@.len() ==> stem_choice_ok(
                #[trigger] plan@[i].stem@,
                base_name(notes@[i].name@),
                used_before(existing_stems@.map_values(|s: String| s@), plan_stems(plan@), i),
            ),
{
    let ghost existingv = existing_stems@.map_values(|s: String| s@);
    let en = existing_stems.len();
    let mut used: Vec<String> = Vec::new();
    let mut i: usize = 0;
    while i < en
        invariant
            0 <= i <= en,
            en == existing_stems@.len(),
            existingv == existing_stems@.map_values(|s: String| s@),
            used@.len() == i,
            forall|j: int| 0 <= j < i ==> used@[j]@ == lower(#[trigger] existingv[j]),
        decreases en - i,
    {
        used.push(lower_str(existing_stems[i].as_str()));
        proof {
            assert(existingv[i as int] == existing_stems@[i as int]@);
        }
        i = i + 1;
    }
    let nn = notes.len();
    let mut plan: Vec<PlannedFile> = Vec::new();
    let mut k: usize = 0;
    while k < nn
        invariant
            0 <= k <= nn,
            nn == notes@.len(),
            en == existing_stems@.len(),
            existingv == existing_stems@.map_values(|s: String| s@),
            plan@.len() == k,
            used@.len() == en + k,
            forall|j: int| 0 <= j < en ==> used@[j]@ == lower(#[trigger] existingv[j]),
            forall|j: int| 0 <= j < k ==> used@[en + j]@ == lower(#[trigger] plan@[j].stem@),
            forall|i: int| 0 <= i < k ==> #[trigger] plan@[i].content@ == notes@[i].content@,
            forall|i: int|
                0 <= i < k ==> stem_choice_ok(
                    #[trigger] plan@[i].stem@,
                    base_name(notes@[i].name@),
                    used_before(existingv, plan_stems(plan@), i),
                ),
        decreases nn - k,
    {
        let ghost oldplan = plan@;
        proof {
            assert(used@.map_values(|x: String| x@) =~= used_before(
                existingv,
                plan_stems(oldplan),
                k as int,
            )) by {
                let rhs = used_before(existingv, plan_stems(oldplan), k as int);
                assert(plan_stems(oldplan).subrange(0, k as int) =~= plan_stems(oldplan));
                assert forall|j: int| 0 <= j < en + k implies used@.map_values(|x: String| x@)[j]
                    == rhs[j] by {
                    if j < en {
                        assert(rhs[j] == existingv.map_values(|s: Seq<char>| lower(s))[j]);
                    } else {
                        assert(rhs[j] == plan_stems(oldplan).subrange(0, k as int).map_values(
                            |s: Seq<char>| lower(s),
                        )[j - en]);
                        assert(plan_stems(oldplan)[j - en] == oldplan[j - en].stem@);
                    }
                }
            }
        }
        let base = base_name_exec(notes[k].name.as_str());
        let stem = resolve_stem(base.as_str(), &used);
        let lstem = lower_str(stem.as_str());
        used.push(lstem);
        let content = notes[k].content.clone();
        plan.push(PlannedFile { stem, content });
        proof {
            assert(plan@ == oldplan.push(plan@.last()));
            assert(plan@.last().content@ == notes@[k as int].content@);
            assert(forall|j: int| 0 <= j < k ==> plan@[j] == oldplan[j]);
            // Earlier prefixes of the chosen stems are untouched by the push.
            assert forall|i: int| 0 <= i <= k implies used_before(
                existingv,
                plan_stems(plan@),
                i,
            ) =~= used_before(existingv, plan_stems(oldplan), i) by {
                assert(plan_stems(plan@).subrange(0, i) =~= plan_stems(oldplan).subrange(0, i))
                    by {
                    assert(forall|j: int|
                        0 <= j < i ==> #[trigger] plan_stems(plan@)[j] == plan@[j].stem@
                            && plan_stems(oldplan)[j] == oldplan[j].stem@);
                }
            }
            // The new entry's choice was made against exactly its used list.
            assert(stem_choice_ok(
                plan@[k as int].stem@,
                base_name(notes@[k as int].name@),
                used_before(existingv, plan_stems(plan@), k as int),
            ));
        }
        k = k + 1;
    }
    plan
}

/// Stems chosen as the planner chooses them collide with nothing: two notes
/// of one batch get distinct stems, and no stem matches a pre-existing one,
/// in both cases compared without regard to ASCII case. The hypothesis is
/// the first conjunct of [`stem_choice_ok`], which `plan_export` ensures for
/// every planned stem.
pub proof fn lemma_plan_no_collisions(existing: Seq<Seq<char>>, chosen: Seq<Seq<char>>)
    requires
        forall|i: int|
            0 <= i < chosen.len() ==> !used_before(existing, chosen, i).contains(
                lower(#[trigger] chosen[i]),
            ),
    ensures
        forall|i: int, j: int|
            0 <= i < j < chosen.len() ==> lower(#[trigger] chosen[i]) != lower(
                #[trigger] chosen[j],
            ),
        forall|i: int, e: int|
            0 <= i < chosen.len() && 0 <= e < existing.len() ==> lower(#[trigger] chosen[i])
                != lower(#[trigger] existing[e]),
{
    assert forall|i: int, j: int| 0 <= i < j < chosen.len() implies lower(
        #[trigger] chosen[i],
    ) != lower(#[trigger] chosen[j]) by {
        let u = used_before(existing, chosen, j);
        let p = existing.len() + i;
        assert(u[p] == chosen.subrange(0, j).map_values(|s: Seq<char>| lower(s))[i]);
        assert(u[p] == lower(chosen[i]));
        assert(u.contains(lower(chosen[i]))) by {
            assert(0 <= p < u.len() && u[p] == lower(chosen[i]));
        }
    }
    assert forall|i: int, e: int|
        0 <= i < chosen.len() && 0 <= e < existing.len() implies lower(#[trigger] chosen[i])
        != lower(#[trigger] existing[e]) by {
        let u = used_before(existing, chosen, i);
        assert(u[e] == existing.map_values(|s: Seq<char>| lower(s))[e]);
        assert(u[e] == lower(existing[e]));
        assert(u.contains(lower(existing[e]))) by {
            assert(0 <= e < u.len() && u[e] == lower(existing[e]));
        }
    }
}

/// The directory after the planned files are written in order, each at
/// `<stem>.md`.
pub open spec fn apply_plan(
    m: Map<Seq<char>, Seq<char>>,
    ps: Seq<(Seq<char>, Seq<char>)>,
) -> Map<Seq<char>, Seq<char>>
    decreases ps.len(),
{
    if ps.len() == 0 {
        m
    } else {
        apply_plan(m, ps.drop_last()).insert(md_name(ps.last().0), ps.last().1)
    }
}

/// The (stem, content) pairs of a plan.
pub open spec fn plan_pairs(p: Seq<PlannedFile>) -> Seq<(Seq<char>, Seq<char>)> {
    p.map_values(|f: PlannedFile| (f.stem@, f.content@))
}

/// Exports a batch of notes into the folder: plans the batch against the
/// markdown stems already present, then writes each planned file. Writes
/// land one by one; files written earlier stay in place whatever happens to
/// later ones. The host checks that the target is a directory before
/// mirroring this operation.
pub fn export_notes_to_folder(dir: &mut DirModel, notes: &Vec<ExportNote>) -> (plan: Vec<
    PlannedFile,
>)
    requires
        old(dir).wf(),
    ensures
        final(dir).wf(),
        plan@.len() == notes@.len(),
        forall|i: int| 0 <= i < notes@.len() ==> #[trigger] plan@[i].content@ == notes@[i].content@,
        forall|i: int|
            0 <= i < notes@.len() ==> stem_choice_ok(
                #[trigger] plan@[i].stem@,
                base_name(notes@[i].name@),
                used_before(md_stems(old(dir).names_seq()), plan_stems(plan@), i),
            ),
        final(dir)@ == apply_plan(old(dir)@, plan_pairs(plan@)),
{
    let names = dir.names();
    let existing = md_stems_exec(&names);
    let plan = plan_export(&existing, notes);
    let n = plan.len();
    let mut i: usize = 0;
    while i < n
        invariant
            0 <= i <= n,
            n == plan@.len(),
            dir.wf(),
            dir@ == apply_plan(old(dir)@, plan_pairs(plan@).subrange(0, i as int)),
        decreases n - i,
    {
        let name = crate::names::md_file_name(plan[i].stem.as_str());
        dir.insert(name.as_str(), plan[i].content.as_str());
        proof {
            let pp = plan_pairs(plan@);
            assert(pp.subrange(0, i + 1).drop_last() =~= pp.subrange(0, i as int));
            assert(pp.subrange(0, i + 1).last() == pp[i as int]);
            assert(pp[i as int].0 == plan@[i as int].stem@);
        }
        i = i + 1;
    }
    proof {
        assert(plan_pairs(plan@).subrange(0, n as int) =~= plan_pairs(plan@));
    }
    plan
}

} // verus!
