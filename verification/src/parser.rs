//! The structural parser: a greedy left-to-right tokenizer over the
//! configuration text, trying seven entry forms in a fixed priority
//! order, and the partitioner that buckets the entries by the most
//! recently seen conditional-filter marker.

use vstd::prelude::*;

use crate::entries::{
    configs_view, entries_view, Config, ConfigEntry, ConfigEntryV, ConfigV, DTOverlay, DTOverlayV,
    DTparam, DTparamV, GpuMem, GpuMemV,
};
use crate::errors::ParseError;
use crate::sections::{sec_append, sec_ensure, sec_find_from, sec_lookup, Sections, SectionsV};
use crate::text::{
    ctrl_end, dec_val, digits_end, find_char, is_prefix_at, lemma_ctrl_end_range,
    lemma_digits_end_range, lemma_digits_end_spread, lemma_find_char_range, lemma_run_end_range,
    parse_dec, prefix_at, run_end, scan_for_char, skip_ctrl, skip_digits, skip_run,
};

verus! {

/// The outcome of trying the entry forms at one position: an entry and
/// the position after it, no form matching, or a form matching with an
/// invalid payload (a hard error).
pub ghost enum EntryTry {
    Hit(int, ConfigEntryV),
    Miss,
    Bad,
}

/// Form 1, a filter marker: `[` then everything up to the first `]`.
pub open spec fn spec_try_filter(s: Seq<char>, i: int) -> EntryTry {
    if i < s.len() && s[i] == '[' {
        match find_char(s, i + 1, ']') {
            Some(j) => EntryTry::Hit(
                ctrl_end(s, j + 1),
                ConfigEntryV::ConditionFilter(s.subrange(i + 1, j)),
            ),
            None => EntryTry::Miss,
        }
    } else {
        EntryTry::Miss
    }
}

/// Form 2, a comment: `#` then the printable run as payload.
pub open spec fn spec_try_comment(s: Seq<char>, i: int) -> EntryTry {
    if i < s.len() && s[i] == '#' {
        let e = run_end(s, i + 1, Seq::empty());
        EntryTry::Hit(ctrl_end(s, e), ConfigEntryV::Comment(s.subrange(i + 1, e)))
    } else {
        EntryTry::Miss
    }
}

/// One comma-delimited field read as `key=value`: the key runs to the
/// first `=`, the value to the end of the field; a field without `=` is
/// invalid.
pub open spec fn spec_field_kv(s: Seq<char>, a: int) -> Option<ConfigV> {
    let b = run_end(s, a, seq![',']);
    let k = run_end(s, a, seq![',', '=']);
    if k < s.len() && s[k] == '=' && k < b {
        Some(ConfigV { key: s.subrange(a, k), value: s.subrange(k + 1, b) })
    } else {
        None
    }
}

/// A non-empty comma-separated list of `key=value` fields starting at
/// `a`: the position after the last field and the pairs, or `None` when
/// some field is not `key=value`.
pub open spec fn spec_params_from(s: Seq<char>, a: int) -> Option<(int, Seq<ConfigV>)>
    decreases s.len() - a when 0 <= a <= s.len()
{
    match spec_field_kv(s, a) {
        None => None,
        Some(kv) => {
            let b = run_end(s, a, seq![',']);
            if a <= b && b < s.len() && s[b] == ',' {
                match spec_params_from(s, b + 1) {
                    Some((e, rest)) => Some((e, seq![kv] + rest)),
                    None => None,
                }
            } else {
                Some((b, seq![kv]))
            }
        },
    }
}

/// Form 3, an overlay directive: `dtoverlay=`, a name field, then
/// optional `key=value` fields; a malformed field is a hard error.
pub open spec fn spec_try_overlay(s: Seq<char>, i: int) -> EntryTry {
    if is_prefix_at(s, i, "dtoverlay="@) {
        let a = i + "dtoverlay="@.len();
        let b = run_end(s, a, seq![',']);
        let name = s.subrange(a, b);
        if b < s.len() && s[b] == ',' {
            match spec_params_from(s, b + 1) {
                Some((e, params)) => EntryTry::Hit(
                    ctrl_end(s, e),
                    ConfigEntryV::DTOverlay(DTOverlayV { overlay: name, configs: params }),
                ),
                None => EntryTry::Bad,
            }
        } else {
            EntryTry::Hit(
                ctrl_end(s, b),
                ConfigEntryV::DTOverlay(DTOverlayV { overlay: name, configs: Seq::empty() }),
            )
        }
    } else {
        EntryTry::Miss
    }
}

/// Form 4, a parameter directive: `dtparam=` then at least one
/// `key=value` field; a malformed or missing field is a hard error.
pub open spec fn spec_try_dtparam(s: Seq<char>, i: int) -> EntryTry {
    if is_prefix_at(s, i, "dtparam="@) {
        match spec_params_from(s, i + "dtparam="@.len()) {
            Some((e, params)) => EntryTry::Hit(
                ctrl_end(s, e),
                ConfigEntryV::DTparam(DTparamV { configs: params }),
            ),
            None => EntryTry::Bad,
        }
    } else {
        EntryTry::Miss
    }
}

/// Form 5, a plain memory directive: `gpu_mem=` then digits; a value
/// beyond the machine's word size is a hard error.
pub open spec fn spec_try_gpumem(s: Seq<char>, i: int) -> EntryTry {
    if is_prefix_at(s, i, "gpu_mem="@) {
        let a = i + "gpu_mem="@.len();
        let d = digits_end(s, a);
        if d == a {
            EntryTry::Miss
        } else if dec_val(s.subrange(a, d)) > usize::MAX {
            EntryTry::Bad
        } else {
            EntryTry::Hit(
                ctrl_end(s, d),
                ConfigEntryV::GpuMem(
                    GpuMemV {
                        total_ramsize: None,
                        gpu_ramsize: dec_val(s.subrange(a, d)) as usize,
                        model: None,
                    },
                ),
            )
        }
    } else {
        EntryTry::Miss
    }
}

/// Form 6, a conditional memory directive: `gpu_mem_<digits>=<digits>`,
/// total size then GPU share; a value beyond the machine's word size is
/// a hard error.
pub open spec fn spec_try_gpumem_condition(s: Seq<char>, i: int) -> EntryTry {
    if is_prefix_at(s, i, "gpu_mem_"@) {
        let a = i + "gpu_mem_"@.len();
        let d1 = digits_end(s, a);
        if d1 == a {
            EntryTry::Miss
        } else if d1 < s.len() && s[d1] == '=' {
            let a2 = d1 + 1;
            let d2 = digits_end(s, a2);
            if d2 == a2 {
                EntryTry::Miss
            } else if dec_val(s.subrange(a, d1)) > usize::MAX || dec_val(s.subrange(a2, d2))
                > usize::MAX {
                EntryTry::Bad
            } else {
                EntryTry::Hit(
                    ctrl_end(s, d2),
                    ConfigEntryV::GpuMem(
                        GpuMemV {
                            total_ramsize: Some(dec_val(s.subrange(a, d1)) as usize),
                            gpu_ramsize: dec_val(s.subrange(a2, d2)) as usize,
                            model: None,
                        },
                    ),
                )
            }
        } else {
            EntryTry::Miss
        }
    } else {
        EntryTry::Miss
    }
}

/// Form 7, a generic command: a printable key up to the first `=`, then
/// a printable value to the end of the line.
pub open spec fn spec_try_command(s: Seq<char>, i: int) -> EntryTry {
    let k = run_end(s, i, seq!['=']);
    if k < s.len() && s[k] == '=' {
        let e = run_end(s, k + 1, Seq::empty());
        EntryTry::Hit(
            ctrl_end(s, e),
            ConfigEntryV::Command(ConfigV { key: s.subrange(i, k), value: s.subrange(k + 1, e) }),
        )
    } else {
        EntryTry::Miss
    }
}

/// The seven forms tried in priority order; the first that does not miss
/// decides.
pub open spec fn spec_entry_at(s: Seq<char>, i: int) -> EntryTry {
    let t1 = spec_try_filter(s, i);
    if !(t1 is Miss) {
        t1
    } else {
        let t2 = spec_try_comment(s, i);
        if !(t2 is Miss) {
            t2
        } else {
            let t3 = spec_try_overlay(s, i);
            if !(t3 is Miss) {
                t3
            } else {
                let t4 = spec_try_dtparam(s, i);
                if !(t4 is Miss) {
                    t4
                } else {
                    let t5 = spec_try_gpumem(s, i);
                    if !(t5 is Miss) {
                        t5
                    } else {
                        let t6 = spec_try_gpumem_condition(s, i);
                        if !(t6 is Miss) {
                            t6
                        } else {
                            spec_try_command(s, i)
                        }
                    }
                }
            }
        }
    }
}

/// The key and field runs of one field: the key run ends no later than
/// the field run, and strictly earlier when it ends at `=`.
pub proof fn lemma_field_bounds(s: Seq<char>, a: int)
    requires
        0 <= a <= s.len(),
    ensures
        a <= run_end(s, a, seq![',', '=']) <= run_end(s, a, seq![',']) <= s.len(),
        ({
            let k = run_end(s, a, seq![',', '=']);
            k < s.len() && s[k] == '=' ==> k < run_end(s, a, seq![','])
        }),
    decreases s.len() - a,
{
    let stop2: Seq<char> = seq![',', '='];
    let stop1: Seq<char> = seq![','];
    lemma_run_end_range(s, a, stop1);
    lemma_run_end_range(s, a, stop2);
    if a < s.len() && crate::text::is_printable(s[a]) && !stop2.contains(s[a]) {
        assert(!stop1.contains(s[a]));
        lemma_field_bounds(s, a + 1);
    } else {
        assert(run_end(s, a, stop2) == a);
        if a < s.len() && s[a] == '=' {
            assert(crate::text::is_printable('='));
            assert(!stop1.contains('='));
            lemma_run_end_range(s, a + 1, stop1);
        }
    }
}

/// The position after a parsed field list lies between its start and the
/// end of the text.
pub proof fn lemma_params_range(s: Seq<char>, a: int)
    requires
        0 <= a <= s.len(),
    ensures
        spec_params_from(s, a) matches Some((e, ps)) ==> a <= e <= s.len() && ps.len() >= 1,
    decreases s.len() - a,
{
    lemma_field_bounds(s, a);
    match spec_field_kv(s, a) {
        None => {},
        Some(kv) => {
            let b = run_end(s, a, seq![',']);
            if a <= b && b < s.len() && s[b] == ',' {
                lemma_params_range(s, b + 1);
            }
        },
    }
}

/// Every matched entry advances the position.
pub proof fn lemma_entry_advances(s: Seq<char>, i: int)
    requires
        0 <= i <= s.len(),
    ensures
        spec_entry_at(s, i) matches EntryTry::Hit(j, e) ==> i < j <= s.len(),
{
    reveal_strlit("dtoverlay=");
    reveal_strlit("dtparam=");
    reveal_strlit("gpu_mem=");
    reveal_strlit("gpu_mem_");
    if i < s.len() {
        lemma_find_char_range(s, i + 1, ']');
    }
    if spec_try_filter(s, i) matches EntryTry::Hit(j, e) {
        lemma_ctrl_end_range(s, (find_char(s, i + 1, ']')->Some_0) + 1);
    } else if spec_try_comment(s, i) matches EntryTry::Hit(j, e) {
        lemma_run_end_range(s, i + 1, Seq::empty());
        lemma_ctrl_end_range(s, run_end(s, i + 1, Seq::empty()));
    } else if spec_try_overlay(s, i) matches EntryTry::Hit(j, e) {
        let a = i + "dtoverlay="@.len();
        lemma_run_end_range(s, a, seq![',']);
        let b = run_end(s, a, seq![',']);
        if b < s.len() && s[b] == ',' {
            lemma_params_range(s, b + 1);
            let pr = spec_params_from(s, b + 1);
            if pr is Some {
                lemma_ctrl_end_range(s, pr->Some_0.0);
            }
        } else {
            lemma_ctrl_end_range(s, b);
        }
    } else if spec_try_dtparam(s, i) matches EntryTry::Hit(j, e) {
        let a = i + "dtparam="@.len();
        lemma_params_range(s, a);
        let pr = spec_params_from(s, a);
        if pr is Some {
            lemma_ctrl_end_range(s, pr->Some_0.0);
        }
    } else if spec_try_gpumem(s, i) matches EntryTry::Hit(j, e) {
        let a = i + "gpu_mem="@.len();
        lemma_digits_end_range(s, a);
        lemma_ctrl_end_range(s, digits_end(s, a));
    } else if spec_try_gpumem_condition(s, i) matches EntryTry::Hit(j, e) {
        let a = i + "gpu_mem_"@.len();
        lemma_digits_end_range(s, a);
        let d1 = digits_end(s, a);
        lemma_digits_end_range(s, d1 + 1);
        lemma_ctrl_end_range(s, digits_end(s, d1 + 1));
    } else if spec_try_command(s, i) matches EntryTry::Hit(j, e) {
        let k = run_end(s, i, seq!['=']);
        lemma_run_end_range(s, i, seq!['=']);
        lemma_run_end_range(s, k + 1, Seq::empty());
        lemma_ctrl_end_range(s, run_end(s, k + 1, Seq::empty()));
    }
}

/// The executable outcome of trying the entry forms at one position.
enum RuleStep {
    Took(usize, ConfigEntry),
    NoRule,
    BadRule,
}

fn try_filter(s: &str, n: usize, i: usize) -> (r: RuleStep)
    requires
        n == s@.len(),
        i <= n,
    ensures
        match r {
            RuleStep::Took(j, e) => spec_try_filter(s@, i as int) == EntryTry::Hit(j as int, e@) && i < j <= n,
            RuleStep::NoRule => spec_try_filter(s@, i as int) is Miss,
            RuleStep::BadRule => false,
        },
{
    if i >= n || s.get_char(i) != '[' {
        return RuleStep::NoRule;
    }
    match scan_for_char(s, n, i + 1, ']') {
        None => RuleStep::NoRule,
        Some(j) => {
            proof {
                lemma_find_char_range(s@, i + 1, ']');
            }
            let name = s.substring_char(i + 1, j);
            let next = skip_ctrl(s, n, j + 1);
            RuleStep::Took(next, ConfigEntry::ConditionFilter(name.to_owned()))
        },
    }
}

fn try_comment(s: &str, n: usize, i: usize) -> (r: RuleStep)
    requires
        n == s@.len(),
        i <= n,
    ensures
        match r {
            RuleStep::Took(j, e) => spec_try_comment(s@, i as int) == EntryTry::Hit(j as int, e@) && i < j <= n,
            RuleStep::NoRule => spec_try_comment(s@, i as int) is Miss,
            RuleStep::BadRule => false,
        },
{
    if i >= n || s.get_char(i) != '#' {
        return RuleStep::NoRule;
    }
    let e = skip_run(s, n, i + 1, "");
    proof {
        reveal_strlit("");
        assert(""@ =~= Seq::<char>::empty());
    }
    let payload = s.substring_char(i + 1, e);
    let next = skip_ctrl(s, n, e);
    RuleStep::Took(next, ConfigEntry::Comment(payload.to_owned()))
}

/// Combines already-parsed fields with the outcome of parsing the rest.
pub open spec fn params_with_prefix(pre: Seq<ConfigV>, r: Option<(int, Seq<ConfigV>)>) -> Option<
    (int, Seq<ConfigV>),
> {
    match r {
        Some((e, rest)) => Some((e, pre + rest)),
        None => None,
    }
}

/// Reads the non-empty comma-separated `key=value` field list at `a`.
fn parse_params(s: &str, n: usize, a: usize) -> (r: Option<(usize, Vec<Config>)>)
    requires
        n == s@.len(),
        a <= n,
    ensures
        match r {
            Some(p) => spec_params_from(s@, a as int) == Some(
                (p.0 as int, configs_view(p.1@)),
            ) && a <= p.0 <= n,
            None => spec_params_from(s@, a as int) is None,
        },
{
    let ghost comma: Seq<char> = seq![','];
    let ghost commaeq: Seq<char> = seq![',', '='];
    let mut ps: Vec<Config> = Vec::new();
    let mut cur: usize = a;
    assert(configs_view(ps@) =~= Seq::<ConfigV>::empty());
    loop
        invariant
            n == s@.len(),
            a <= cur <= n,
            comma == seq![','],
            commaeq == seq![',', '='],
            spec_params_from(s@, a as int) == params_with_prefix(
                configs_view(ps@),
                spec_params_from(s@, cur as int),
            ),
        decreases n - cur,
    {
        proof {
            reveal_strlit(",");
            reveal_strlit(",=");
            assert(","@ =~= comma);
            assert(",="@ =~= commaeq);
            lemma_field_bounds(s@, cur as int);
        }
        let b = skip_run(s, n, cur, ",");
        let k = skip_run(s, n, cur, ",=");
        if !(k < n && s.get_char(k) == '=') {
            assert(spec_field_kv(s@, cur as int) is None);
            return None;
        }
        assert(k < b);
        let ghost kv = spec_field_kv(s@, cur as int)->Some_0;
        let key = s.substring_char(cur, k);
        let value = s.substring_char(k + 1, b);
        let ghost pre0 = configs_view(ps@);
        ps.push(Config { key: key.to_owned(), value: value.to_owned() });
        proof {
            assert(configs_view(ps@) =~= pre0.push(kv));
        }
        if b < n && s.get_char(b) == ',' {
            proof {
                match spec_params_from(s@, b + 1) {
                    Some((e2, rest)) => {
                        assert(pre0 + (seq![kv] + rest) =~= pre0.push(kv) + rest);
                    },
                    None => {},
                }
            }
            cur = b + 1;
        } else {
            assert(spec_params_from(s@, cur as int) == Some((b as int, seq![kv])));
            assert(pre0 + seq![kv] =~= pre0.push(kv));
            return Some((b, ps));
        }
    }
}

fn try_overlay(s: &str, n: usize, i: usize) -> (r: RuleStep)
    requires
        n == s@.len(),
        i <= n,
    ensures
        match r {
            RuleStep::Took(j, e) => spec_try_overlay(s@, i as int) == EntryTry::Hit(j as int, e@) && i < j <= n,
            RuleStep::NoRule => spec_try_overlay(s@, i as int) is Miss,
            RuleStep::BadRule => spec_try_overlay(s@, i as int) is Bad,
        },
{
    if !prefix_at(s, n, i, "dtoverlay=") {
        return RuleStep::NoRule;
    }
    proof {
        reveal_strlit("dtoverlay=");
        reveal_strlit(",");
        assert(","@ =~= seq![',']);
    }
    let a = i + 10;
    assert(a == i + "dtoverlay="@.len());
    let b = skip_run(s, n, a, ",");
    let name = s.substring_char(a, b);
    if b < n && s.get_char(b) == ',' {
        match parse_params(s, n, b + 1) {
            Some((e, ps)) => {
                let next = skip_ctrl(s, n, e);
                RuleStep::Took(
                    next,
                    ConfigEntry::DTOverlay(DTOverlay { overlay: name.to_owned(), configs: ps }),
                )
            },
            None => RuleStep::BadRule,
        }
    } else {
        let next = skip_ctrl(s, n, b);
        assert(configs_view(Seq::<Config>::empty()) =~= Seq::<ConfigV>::empty());
        RuleStep::Took(
            next,
            ConfigEntry::DTOverlay(DTOverlay { overlay: name.to_owned(), configs: Vec::new() }),
        )
    }
}

fn try_dtparam(s: &str, n: usize, i: usize) -> (r: RuleStep)
    requires
        n == s@.len(),
        i <= n,
    ensures
        match r {
            RuleStep::Took(j, e) => spec_try_dtparam(s@, i as int) == EntryTry::Hit(j as int, e@) && i < j <= n,
            RuleStep::NoRule => spec_try_dtparam(s@, i as int) is Miss,
            RuleStep::BadRule => spec_try_dtparam(s@, i as int) is Bad,
        },
{
    if !prefix_at(s, n, i, "dtparam=") {
        return RuleStep::NoRule;
    }
    proof {
        reveal_strlit("dtparam=");
    }
    let a = i + 8;
    assert(a == i + "dtparam="@.len());
    match parse_params(s, n, a) {
        Some((e, ps)) => {
            let next = skip_ctrl(s, n, e);
            RuleStep::Took(next, ConfigEntry::DTparam(DTparam { configs: ps }))
        },
        None => RuleStep::BadRule,
    }
}

fn try_gpumem(s: &str, n: usize, i: usize) -> (r: RuleStep)
    requires
        n == s@.len(),
        i <= n,
    ensures
        match r {
            RuleStep::Took(j, e) => spec_try_gpumem(s@, i as int) == EntryTry::Hit(j as int, e@) && i < j <= n,
            RuleStep::NoRule => spec_try_gpumem(s@, i as int) is Miss,
            RuleStep::BadRule => spec_try_gpumem(s@, i as int) is Bad,
        },
{
    if !prefix_at(s, n, i, "gpu_mem=") {
        return RuleStep::NoRule;
    }
    proof {
        reveal_strlit("gpu_mem=");
    }
    let a = i + 8;
    assert(a == i + "gpu_mem="@.len());
    let d = skip_digits(s, n, a);
    if d == a {
        return RuleStep::NoRule;
    }
    proof {
        lemma_digits_end_spread(s@, a as int, d as int);
    }
    match parse_dec(s, n, a, d) {
        Some(v) => {
            let next = skip_ctrl(s, n, d);
            RuleStep::Took(
                next,
                ConfigEntry::GpuMem(GpuMem { total_ramsize: None, gpu_ramsize: v, model: None }),
            )
        },
        None => RuleStep::BadRule,
    }
}

fn try_gpumem_condition(s: &str, n: usize, i: usize) -> (r: RuleStep)
    requires
        n == s@.len(),
        i <= n,
    ensures
        match r {
            RuleStep::Took(j, e) => spec_try_gpumem_condition(s@, i as int) == EntryTry::Hit(
                j as int,
                e@,
            ) && i < j <= n,
            RuleStep::NoRule => spec_try_gpumem_condition(s@, i as int) is Miss,
            RuleStep::BadRule => spec_try_gpumem_condition(s@, i as int) is Bad,
        },
{
    if !prefix_at(s, n, i, "gpu_mem_") {
        return RuleStep::NoRule;
    }
    proof {
        reveal_strlit("gpu_mem_");
    }
    let a = i + 8;
    assert(a == i + "gpu_mem_"@.len());
    let d1 = skip_digits(s, n, a);
    if d1 == a {
        return RuleStep::NoRule;
    }
    if !(d1 < n && s.get_char(d1) == '=') {
        return RuleStep::NoRule;
    }
    let a2 = d1 + 1;
    let d2 = skip_digits(s, n, a2);
    if d2 == a2 {
        return RuleStep::NoRule;
    }
    proof {
        lemma_digits_end_spread(s@, a as int, d1 as int);
        lemma_digits_end_spread(s@, a2 as int, d2 as int);
    }
    let total = match parse_dec(s, n, a, d1) {
        Some(v) => v,
        None => {
            return RuleStep::BadRule;
        },
    };
    let gpu = match parse_dec(s, n, a2, d2) {
        Some(v) => v,
        None => {
            return RuleStep::BadRule;
        },
    };
    let next = skip_ctrl(s, n, d2);
    RuleStep::Took(
        next,
        ConfigEntry::GpuMem(
            GpuMem { total_ramsize: Some(total), gpu_ramsize: gpu, model: None },
        ),
    )
}

fn try_command(s: &str, n: usize, i: usize) -> (r: RuleStep)
    requires
        n == s@.len(),
        i <= n,
    ensures
        match r {
            RuleStep::Took(j, e) => spec_try_command(s@, i as int) == EntryTry::Hit(j as int, e@) && i < j <= n,
            RuleStep::NoRule => spec_try_command(s@, i as int) is Miss,
            RuleStep::BadRule => false,
        },
{
    proof {
        reveal_strlit("=");
        reveal_strlit("");
        assert("="@ =~= seq!['=']);
        assert(""@ =~= Seq::<char>::empty());
    }
    let k = skip_run(s, n, i, "=");
    if !(k < n && s.get_char(k) == '=') {
        return RuleStep::NoRule;
    }
    let e = skip_run(s, n, k + 1, "");
    let key = s.substring_char(i, k);
    let value = s.substring_char(k + 1, e);
    let next = skip_ctrl(s, n, e);
    RuleStep::Took(
        next,
        ConfigEntry::Command(Config { key: key.to_owned(), value: value.to_owned() }),
    )
}

/// Tries the seven entry forms at `i`, in priority order.
fn entry_at(s: &str, n: usize, i: usize) -> (r: RuleStep)
    requires
        n == s@.len(),
        i <= n,
    ensures
        match r {
            RuleStep::Took(j, e) => spec_entry_at(s@, i as int) == EntryTry::Hit(j as int, e@) && i
                < j <= n,
            RuleStep::NoRule => spec_entry_at(s@, i as int) is Miss,
            RuleStep::BadRule => spec_entry_at(s@, i as int) is Bad,
        },
{
    proof {
        lemma_entry_advances(s@, i as int);
    }
    let r1 = try_filter(s, n, i);
    if !(matches!(r1, RuleStep::NoRule)) {
        return r1;
    }
    let r2 = try_comment(s, n, i);
    if !(matches!(r2, RuleStep::NoRule)) {
        return r2;
    }
    let r3 = try_overlay(s, n, i);
    if !(matches!(r3, RuleStep::NoRule)) {
        return r3;
    }
    let r4 = try_dtparam(s, n, i);
    if !(matches!(r4, RuleStep::NoRule)) {
        return r4;
    }
    let r5 = try_gpumem(s, n, i);
    if !(matches!(r5, RuleStep::NoRule)) {
        return r5;
    }
    let r6 = try_gpumem_condition(s, n, i);
    if !(matches!(r6, RuleStep::NoRule)) {
        return r6;
    }
    try_command(s, n, i)
}

/// The outcome of scanning entries from a position to the end of the
/// text: the entries and the position where no form matched any more, or
/// the position of a hard error.
pub ghost enum ListScanV {
    Done(int, Seq<ConfigEntryV>),
    Rejected(int),
}

/// Scans entries greedily from `i` until no form matches.
pub open spec fn spec_list_from(s: Seq<char>, i: int) -> ListScanV
    decreases s.len() - i when 0 <= i <= s.len()
{
    match spec_entry_at(s, i) {
        EntryTry::Hit(j, e) => {
            if i < j <= s.len() {
                match spec_list_from(s, j) {
                    ListScanV::Done(end, rest) => ListScanV::Done(end, seq![e] + rest),
                    ListScanV::Rejected(p) => ListScanV::Rejected(p),
                }
            } else {
                ListScanV::Rejected(i)
            }
        },
        EntryTry::Miss => ListScanV::Done(i, Seq::empty()),
        EntryTry::Bad => ListScanV::Rejected(i),
    }
}

/// One partitioning step per entry: a filter marker moves the cursor and
/// opens its bucket; every other entry joins the cursor's bucket.
pub open spec fn spec_partition_from(
    es: Seq<ConfigEntryV>,
    i: int,
    cur: Seq<char>,
    acc: SectionsV,
) -> SectionsV
    decreases es.len() - i when 0 <= i <= es.len()
{
    if i >= es.len() {
        acc
    } else {
        match es[i] {
            ConfigEntryV::ConditionFilter(name) => spec_partition_from(
                es,
                i + 1,
                name,
                sec_ensure(acc, name),
            ),
            e => spec_partition_from(es, i + 1, cur, sec_append(acc, cur, e)),
        }
    }
}

/// Buckets an entry sequence by filter marker, starting from the
/// catch-all bucket, which always exists.
pub open spec fn spec_partition(es: Seq<ConfigEntryV>) -> SectionsV {
    spec_partition_from(es, 0, "all"@, seq![("all"@, Seq::<ConfigEntryV>::empty())])
}

/// The buckets after appending the entries `es[i..j)` to the bucket
/// named `cur`, one by one.
pub open spec fn append_seg(
    acc: SectionsV,
    cur: Seq<char>,
    es: Seq<ConfigEntryV>,
    i: int,
    j: int,
) -> SectionsV
    decreases j - i when i <= j
{
    if i >= j {
        acc
    } else {
        append_seg(sec_append(acc, cur, es[i]), cur, es, i + 1, j)
    }
}

/// Partitioning a filter-free stretch of entries only appends them, in
/// order, to the current bucket.
proof fn lemma_partition_seg(es: Seq<ConfigEntryV>, i: int, j: int, cur: Seq<char>, acc: SectionsV)
    requires
        0 <= i <= j <= es.len(),
        forall|k: int| i <= k < j ==> !(es[k] is ConditionFilter),
    ensures
        spec_partition_from(es, i, cur, acc) == spec_partition_from(
            es,
            j,
            cur,
            append_seg(acc, cur, es, i, j),
        ),
    decreases j - i,
{
    if i < j {
        lemma_partition_seg(es, i + 1, j, cur, sec_append(acc, cur, es[i]));
    }
}

/// What appending a stretch does to lookups: the current bucket gains
/// exactly those entries at its end, every other bucket is untouched.
proof fn lemma_append_seg_sees(es: Seq<ConfigEntryV>, i: int, j: int, cur: Seq<char>, acc: SectionsV)
    requires
        0 <= i <= j <= es.len(),
        sec_lookup(acc, cur) is Some,
    ensures
        sec_lookup(append_seg(acc, cur, es, i, j), cur) == Some(
            (sec_lookup(acc, cur)->Some_0) + es.subrange(i, j),
        ),
        forall|other: Seq<char>| other != cur ==> sec_lookup(append_seg(acc, cur, es, i, j), other)
            == sec_lookup(acc, other),
    decreases j - i,
{
    let base = sec_lookup(acc, cur)->Some_0;
    if i >= j {
        assert(base + es.subrange(i, j) =~= base);
    } else {
        crate::sections::lemma_sec_append_sees(acc, cur, es[i]);
        let acc2 = sec_append(acc, cur, es[i]);
        lemma_append_seg_sees(es, i + 1, j, cur, acc2);
        assert(append_seg(acc, cur, es, i, j) == append_seg(acc2, cur, es, i + 1, j));
        assert(sec_lookup(acc2, cur) == Some(base.push(es[i])));
        assert(base.push(es[i]) + es.subrange(i + 1, j) =~= base + es.subrange(i, j));
        assert(sec_lookup(append_seg(acc2, cur, es, i + 1, j), cur) == Some(
            base.push(es[i]) + es.subrange(i + 1, j),
        ));
        assert(sec_lookup(append_seg(acc, cur, es, i, j), cur) == Some(base + es.subrange(i, j)));
    }
}

/// The partitioned mapping always contains the catch-all bucket.
proof fn lemma_partition_keeps_all(es: Seq<ConfigEntryV>, i: int, cur: Seq<char>, acc: SectionsV)
    requires
        0 <= i <= es.len(),
        sec_lookup(acc, "all"@) is Some,
    ensures
        sec_lookup(spec_partition_from(es, i, cur, acc), "all"@) is Some,
    decreases es.len() - i,
{
    if i < es.len() {
        match es[i] {
            ConfigEntryV::ConditionFilter(name) => {
                crate::sections::lemma_sec_ensure_sees(acc, name);
                lemma_partition_keeps_all(es, i + 1, name, sec_ensure(acc, name));
            },
            e => {
                crate::sections::lemma_sec_append_sees(acc, cur, e);
                lemma_partition_keeps_all(es, i + 1, cur, sec_append(acc, cur, e));
            },
        }
    }
}

/// The round-trip ordering of the partitioner: when catch-all entries
/// are followed by one `[name]`-filtered block, the catch-all bucket is
/// exactly the entries before the marker and the named bucket exactly
/// those after it, both in original order.
pub proof fn lemma_partition_round_trip(
    pre: Seq<ConfigEntryV>,
    m: Seq<char>,
    post: Seq<ConfigEntryV>,
)
    requires
        forall|k: int| 0 <= k < pre.len() ==> !(pre[k] is ConditionFilter),
        forall|k: int| 0 <= k < post.len() ==> !(post[k] is ConditionFilter),
        m != "all"@,
    ensures
        ({
            let r = spec_partition(pre + seq![ConfigEntryV::ConditionFilter(m)] + post);
            sec_lookup(r, "all"@) == Some(pre) && sec_lookup(r, m) == Some(post)
        }),
{
    let es = pre + seq![ConfigEntryV::ConditionFilter(m)] + post;
    let p = pre.len() as int;
    let acc0: SectionsV = seq![("all"@, Seq::<ConfigEntryV>::empty())];
    assert(sec_lookup(acc0, "all"@) == Some(Seq::<ConfigEntryV>::empty()));
    assert(sec_find_from(acc0, m, 1) is None);
    assert(sec_lookup(acc0, m) is None);
    assert(forall|k: int| 0 <= k < p ==> es[k] == pre[k]);
    assert(es[p] == ConfigEntryV::ConditionFilter(m));
    assert(forall|k: int| p + 1 <= k < es.len() ==> es[k] == post[k - p - 1]);
    lemma_partition_seg(es, 0, p, "all"@, acc0);
    let acc1 = append_seg(acc0, "all"@, es, 0, p);
    lemma_append_seg_sees(es, 0, p, "all"@, acc0);
    assert(es.subrange(0, p) =~= pre);
    assert(Seq::<ConfigEntryV>::empty() + pre =~= pre);
    assert(sec_lookup(acc1, "all"@) == Some(pre));
    assert(sec_lookup(acc1, m) is None);
    assert(spec_partition_from(es, p, "all"@, acc1) == spec_partition_from(
        es,
        p + 1,
        m,
        sec_ensure(acc1, m),
    ));
    let acc2 = sec_ensure(acc1, m);
    crate::sections::lemma_sec_ensure_sees(acc1, m);
    assert(sec_lookup(acc2, m) == Some(Seq::<ConfigEntryV>::empty()));
    assert(sec_lookup(acc2, "all"@) == Some(pre));
    lemma_partition_seg(es, p + 1, es.len() as int, m, acc2);
    let acc3 = append_seg(acc2, m, es, p + 1, es.len() as int);
    lemma_append_seg_sees(es, p + 1, es.len() as int, m, acc2);
    assert(es.subrange(p + 1, es.len() as int) =~= post);
    assert(Seq::<ConfigEntryV>::empty() + post =~= post);
    assert(spec_partition(es) == acc3);
    assert(sec_lookup(acc3, m) == Some(post));
    assert(sec_lookup(acc3, "all"@) == Some(pre));
}

/// Combines already-scanned entries with the outcome of scanning the
/// rest.
pub open spec fn list_with_prefix(pre: Seq<ConfigEntryV>, r: ListScanV) -> ListScanV {
    match r {
        ListScanV::Done(end, rest) => ListScanV::Done(end, pre + rest),
        ListScanV::Rejected(p) => ListScanV::Rejected(p),
    }
}

/// Scans entries greedily from `start` until no form matches.
fn scan_entries(s: &str, n: usize, start: usize) -> (r: Result<(usize, Vec<ConfigEntry>), ParseError>)
    requires
        n == s@.len(),
        start <= n,
    ensures
        match r {
            Ok(p) => spec_list_from(s@, start as int) == ListScanV::Done(
                p.0 as int,
                entries_view(p.1@),
            ) && start <= p.0 <= n,
            Err(pe) => spec_list_from(s@, start as int) == ListScanV::Rejected(pe.pos as int),
        },
{
    let mut acc: Vec<ConfigEntry> = Vec::new();
    let mut pos: usize = start;
    assert(entries_view(acc@) =~= Seq::<ConfigEntryV>::empty());
    loop
        invariant
            n == s@.len(),
            start <= pos <= n,
            spec_list_from(s@, start as int) == list_with_prefix(
                entries_view(acc@),
                spec_list_from(s@, pos as int),
            ),
        decreases n - pos,
    {
        match entry_at(s, n, pos) {
            RuleStep::Took(j, e) => {
                let ghost pre0 = entries_view(acc@);
                let ghost ev = e@;
                acc.push(e);
                proof {
                    assert(entries_view(acc@) =~= pre0.push(ev));
                    match spec_list_from(s@, j as int) {
                        ListScanV::Done(end, rest) => {
                            assert(pre0 + (seq![ev] + rest) =~= pre0.push(ev) + rest);
                        },
                        ListScanV::Rejected(_) => {},
                    }
                }
                pos = j;
            },
            RuleStep::NoRule => {
                assert(entries_view(acc@) + Seq::<ConfigEntryV>::empty() =~= entries_view(acc@));
                return Ok((pos, acc));
            },
            RuleStep::BadRule => {
                return Err(ParseError { pos });
            },
        }
    }
}

/// Buckets the entries by the most recently seen filter marker; the
/// marker entries themselves are dropped.
fn partition_entries(entries: &Vec<ConfigEntry>) -> (r: Sections)
    ensures
        r@ == spec_partition(entries_view(entries@)),
        r.wf(),
        sec_lookup(r@, "all"@) is Some,
{
    proof {
        let acc0: SectionsV = seq![("all"@, Seq::<ConfigEntryV>::empty())];
        lemma_partition_keeps_all(entries_view(entries@), 0, "all"@, acc0);
    }
    let ghost esv = entries_view(entries@);
    let mut out = Sections::new();
    out.ensure_bucket("all");
    assert(out@ =~= seq![("all"@, Seq::<ConfigEntryV>::empty())]);
    let mut cur: String = "all".to_owned();
    let mut i: usize = 0;
    while i < entries.len()
        invariant
            0 <= i <= entries@.len(),
            esv == entries_view(entries@),
            out.wf(),
            spec_partition(esv) == spec_partition_from(esv, i as int, cur@, out@),
        decreases entries@.len() - i,
    {
        assert(esv[i as int] == entries@[i as int]@);
        match &entries[i] {
            ConfigEntry::ConditionFilter(name) => {
                out.ensure_bucket(name.as_str());
                cur = name.clone();
            },
            e => {
                out.push_entry(cur.as_str(), e.clone());
            },
        }
        i += 1;
    }
    out
}

/// Reads one comment entry at the start of `i` and returns the rest of
/// the text beside it.
pub fn comment<'a>(i: &'a str) -> (r: Result<(&'a str, ConfigEntry), ParseError>)
    ensures
        match r {
            Ok(p) => spec_try_comment(i@, 0) matches EntryTry::Hit(j, ev) && ev == p.1@ && p.0@
                == i@.subrange(j, i@.len() as int),
            Err(pe) => spec_try_comment(i@, 0) is Miss && pe.pos == 0,
        },
{
    let n = i.unicode_len();
    match try_comment(i, n, 0) {
        RuleStep::Took(j, e) => Ok((i.substring_char(j, n), e)),
        _ => Err(ParseError { pos: 0 }),
    }
}

/// Reads one generic `key=value` entry at the start of `i`.
pub fn command<'a>(i: &'a str) -> (r: Result<(&'a str, ConfigEntry), ParseError>)
    ensures
        match r {
            Ok(p) => spec_try_command(i@, 0) matches EntryTry::Hit(j, ev) && ev == p.1@ && p.0@
                == i@.subrange(j, i@.len() as int),
            Err(pe) => spec_try_command(i@, 0) is Miss && pe.pos == 0,
        },
{
    let n = i.unicode_len();
    match try_command(i, n, 0) {
        RuleStep::Took(j, e) => Ok((i.substring_char(j, n), e)),
        _ => Err(ParseError { pos: 0 }),
    }
}

/// Reads one overlay directive at the start of `i`.
pub fn dtoverlay<'a>(i: &'a str) -> (r: Result<(&'a str, ConfigEntry), ParseError>)
    ensures
        match r {
            Ok(p) => spec_try_overlay(i@, 0) matches EntryTry::Hit(j, ev) && ev == p.1@ && p.0@
                == i@.subrange(j, i@.len() as int),
            Err(pe) => !(spec_try_overlay(i@, 0) is Hit) && pe.pos == 0,
        },
{
    let n = i.unicode_len();
    match try_overlay(i, n, 0) {
        RuleStep::Took(j, e) => Ok((i.substring_char(j, n), e)),
        _ => Err(ParseError { pos: 0 }),
    }
}

/// Reads one parameter directive at the start of `i`.
pub fn dtparam<'a>(i: &'a str) -> (r: Result<(&'a str, ConfigEntry), ParseError>)
    ensures
        match r {
            Ok(p) => spec_try_dtparam(i@, 0) matches EntryTry::Hit(j, ev) && ev == p.1@ && p.0@
                == i@.subrange(j, i@.len() as int),
            Err(pe) => !(spec_try_dtparam(i@, 0) is Hit) && pe.pos == 0,
        },
{
    let n = i.unicode_len();
    match try_dtparam(i, n, 0) {
        RuleStep::Took(j, e) => Ok((i.substring_char(j, n), e)),
        _ => Err(ParseError { pos: 0 }),
    }
}

/// Reads one plain memory directive at the start of `i`.
pub fn gpumem<'a>(i: &'a str) -> (r: Result<(&'a str, ConfigEntry), ParseError>)
    ensures
        match r {
            Ok(p) => spec_try_gpumem(i@, 0) matches EntryTry::Hit(j, ev) && ev == p.1@ && p.0@
                == i@.subrange(j, i@.len() as int),
            Err(pe) => !(spec_try_gpumem(i@, 0) is Hit) && pe.pos == 0,
        },
{
    let n = i.unicode_len();
    match try_gpumem(i, n, 0) {
        RuleStep::Took(j, e) => Ok((i.substring_char(j, n), e)),
        _ => Err(ParseError { pos: 0 }),
    }
}

/// Reads one conditional memory directive at the start of `i`.
pub fn gpumem_condition<'a>(i: &'a str) -> (r: Result<(&'a str, ConfigEntry), ParseError>)
    ensures
        match r {
            Ok(p) => spec_try_gpumem_condition(i@, 0) matches EntryTry::Hit(j, ev) && ev == p.1@
                && p.0@ == i@.subrange(j, i@.len() as int),
            Err(pe) => !(spec_try_gpumem_condition(i@, 0) is Hit) && pe.pos == 0,
        },
{
    let n = i.unicode_len();
    match try_gpumem_condition(i, n, 0) {
        RuleStep::Took(j, e) => Ok((i.substring_char(j, n), e)),
        _ => Err(ParseError { pos: 0 }),
    }
}

/// Reads one filter marker at the start of `i`.
pub fn condition_filter<'a>(i: &'a str) -> (r: Result<(&'a str, ConfigEntry), ParseError>)
    ensures
        match r {
            Ok(p) => spec_try_filter(i@, 0) matches EntryTry::Hit(j, ev) && ev == p.1@ && p.0@
                == i@.subrange(j, i@.len() as int),
            Err(pe) => spec_try_filter(i@, 0) is Miss && pe.pos == 0,
        },
{
    let n = i.unicode_len();
    match try_filter(i, n, 0) {
        RuleStep::Took(j, e) => Ok((i.substring_char(j, n), e)),
        _ => Err(ParseError { pos: 0 }),
    }
}

/// Reads as many entries as the seven forms match, after skipping
/// leading blank lines; at least one entry is required.  Returns the
/// entries and the unconsumed rest of the text.
pub fn config_list<'a>(i: &'a str) -> (r: Result<(&'a str, Vec<ConfigEntry>), ParseError>)
    ensures
        match r {
            Ok(p) => spec_list_from(i@, ctrl_end(i@, 0)) matches ListScanV::Done(end, es)
                && es.len() > 0 && entries_view(p.1@) == es && p.0@ == i@.subrange(
                end,
                i@.len() as int,
            ),
            Err(pe) => match spec_list_from(i@, ctrl_end(i@, 0)) {
                ListScanV::Done(end, es) => es.len() == 0 && pe.pos == end,
                ListScanV::Rejected(q) => pe.pos == q,
            },
        },
{
    let n = i.unicode_len();
    let start = skip_ctrl(i, n, 0);
    match scan_entries(i, n, start) {
        Err(pe) => Err(pe),
        Ok((end, es)) => {
            if es.len() == 0 {
                Err(ParseError { pos: end })
            } else {
                Ok((i.substring_char(end, n), es))
            }
        },
    }
}

/// Parses the whole configuration text into filter-named buckets.  The
/// text must hold at least one entry and nothing the seven forms do not
/// match; otherwise the position of the offending input is reported.
pub fn parse(i: &str) -> (r: Result<Sections, ParseError>)
    ensures
        match r {
            Ok(secs) => spec_list_from(i@, ctrl_end(i@, 0)) matches ListScanV::Done(end, es) && end
                == i@.len() && es.len() > 0 && secs@ == spec_partition(es) && secs.wf()
                && sec_lookup(secs@, "all"@) is Some,
            Err(pe) => match spec_list_from(i@, ctrl_end(i@, 0)) {
                ListScanV::Done(end, es) => (end < i@.len() || es.len() == 0) && pe.pos == end,
                ListScanV::Rejected(q) => pe.pos == q,
            },
        },
{
    let n = i.unicode_len();
    let start = skip_ctrl(i, n, 0);
    match scan_entries(i, n, start) {
        Err(pe) => Err(pe),
        Ok((end, es)) => {
            if end < n || es.len() == 0 {
                Err(ParseError { pos: end })
            } else {
                Ok(partition_entries(&es))
            }
        },
    }
}

} // verus!
