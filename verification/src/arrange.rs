//! The platform expander: coarse filter names become the fine-grained
//! board-model names the target taxonomy uses, and memory splits declared
//! under the catch-all filter are re-homed to the models their total
//! memory size identifies.

use vstd::prelude::*;

use crate::entries::{
    clone_entries, entries_view, entry_is_gpumem, ConfigEntry, ConfigEntryV, GpuMem, GpuMemV,
};
use crate::sections::{
    lemma_sec_append_sees, lemma_sec_replace_sees, sec_append, sec_find_from, sec_lookup,
    sec_replace, Sections, SectionsV,
};
use crate::text::str_eq;

verus! {

/// The fixed coarse-to-fine expansion table.  A name outside the table
/// expands to nothing: its bucket is skipped with no failure.
pub open spec fn spec_expansion(coarse: Seq<char>) -> Option<Seq<Seq<char>>> {
    if coarse == "all"@ {
        Some(seq!["all"@])
    } else if coarse == "pi3"@ {
        Some(
            seq![
                "3 Model B"@,
                "3 Model B+"@,
                "3 Model A+"@,
                "Compute Module 3"@,
                "Compute Module 3+"@,
            ],
        )
    } else if coarse == "pi3+"@ {
        Some(seq!["3 Model B+"@, "3 Model A+"@])
    } else if coarse == "pi4"@ {
        Some(seq!["4 Model B"@, "400"@, "Compute Module 4"@])
    } else if coarse == "pi0"@ {
        Some(seq!["Zero"@, "Zero W"@, "Zero 2 W"@])
    } else if coarse == "pi0w"@ {
        Some(seq!["Zero W"@, "Zero 2 W"@])
    } else {
        None
    }
}

/// Writes a copy of `es` into every bucket named in `fines` from `i` on,
/// replacing buckets that already exist.
pub open spec fn spec_expand_into(
    out: SectionsV,
    fines: Seq<Seq<char>>,
    es: Seq<ConfigEntryV>,
    i: int,
) -> SectionsV
    decreases fines.len() - i when 0 <= i <= fines.len()
{
    if i >= fines.len() {
        out
    } else {
        spec_expand_into(sec_replace(out, fines[i], es), fines, es, i + 1)
    }
}

/// The expansion pass over the coarse mapping from index `i` on.
pub open spec fn spec_expand_from(m: SectionsV, i: int, out: SectionsV) -> SectionsV
    decreases m.len() - i when 0 <= i <= m.len()
{
    if i >= m.len() {
        out
    } else {
        let out2 = match spec_expansion(m[i].0) {
            Some(fines) => spec_expand_into(out, fines, m[i].1, 0),
            None => out,
        };
        spec_expand_from(m, i + 1, out2)
    }
}

/// The models a catch-all memory split with the given total size in MiB
/// is re-homed to.  A 256 MiB split has no valid target; sizes outside
/// the table re-home to nothing and stay put.
pub open spec fn spec_rehome_targets(total: usize) -> Seq<Seq<char>> {
    if total == 512 {
        seq!["Zero"@, "Zero W"@, "3 Model A+"@]
    } else if total == 1024 {
        seq![
            "3 Model B"@,
            "3 Model B+"@,
            "Compute Module 3"@,
            "Compute Module 3+"@,
            "4 Model B"@,
            "400"@,
            "Compute Module 4"@,
        ]
    } else {
        Seq::empty()
    }
}

/// A total size the re-homing table recognizes; such a split leaves the
/// catch-all bucket.
pub open spec fn spec_rehome_known(total: usize) -> bool {
    total == 256 || total == 512 || total == 1024
}

/// Appends, for each target from `i` on, a copy of the split with its
/// `model` set to that target, creating absent buckets.
pub open spec fn spec_append_clones(
    out: SectionsV,
    targets: Seq<Seq<char>>,
    total: usize,
    gpu: usize,
    i: int,
) -> SectionsV
    decreases targets.len() - i when 0 <= i <= targets.len()
{
    if i >= targets.len() {
        out
    } else {
        let e = ConfigEntryV::GpuMem(
            GpuMemV { total_ramsize: Some(total), gpu_ramsize: gpu, model: Some(targets[i]) },
        );
        spec_append_clones(sec_append(out, targets[i], e), targets, total, gpu, i + 1)
    }
}

/// `es` from `i` on with every entry equal to the split `g` removed.
pub open spec fn spec_remove_gpumem_from(es: Seq<ConfigEntryV>, i: int, g: GpuMemV) -> Seq<
    ConfigEntryV,
>
    decreases es.len() - i when 0 <= i <= es.len()
{
    if i >= es.len() {
        Seq::empty()
    } else if es[i] == ConfigEntryV::GpuMem(g) {
        spec_remove_gpumem_from(es, i + 1, g)
    } else {
        seq![es[i]] + spec_remove_gpumem_from(es, i + 1, g)
    }
}

/// Removes every entry equal to the split `g` from the catch-all bucket,
/// if that bucket exists.
pub open spec fn spec_remove_in_all(out: SectionsV, g: GpuMemV) -> SectionsV {
    match sec_lookup(out, "all"@) {
        Some(es) => sec_replace(out, "all"@, spec_remove_gpumem_from(es, 0, g)),
        None => out,
    }
}

/// The re-homing effect of one catch-all entry: a memory split with a
/// recognized total size is copied to its targets and removed from the
/// catch-all bucket; every other entry changes nothing.
pub open spec fn spec_rehome_step(out: SectionsV, e: ConfigEntryV) -> SectionsV {
    match e {
        ConfigEntryV::GpuMem(g) => match g.total_ramsize {
            Some(t) => {
                if spec_rehome_known(t) {
                    spec_remove_in_all(
                        spec_append_clones(out, spec_rehome_targets(t), t, g.gpu_ramsize, 0),
                        g,
                    )
                } else {
                    out
                }
            },
            None => out,
        },
        _ => out,
    }
}

/// The re-homing pass over the input's catch-all entries from `i` on.
pub open spec fn spec_rehome_from(all_es: Seq<ConfigEntryV>, i: int, out: SectionsV) -> SectionsV
    decreases all_es.len() - i when 0 <= i <= all_es.len()
{
    if i >= all_es.len() {
        out
    } else {
        spec_rehome_from(all_es, i + 1, spec_rehome_step(out, all_es[i]))
    }
}

/// The whole arrangement: expansion of every coarse bucket, then
/// re-homing of the input's catch-all memory splits.
pub open spec fn spec_arrange(m: SectionsV) -> SectionsV {
    let expanded = spec_expand_from(m, 0, Seq::empty());
    match sec_lookup(m, "all"@) {
        Some(es) => spec_rehome_from(es, 0, expanded),
        None => expanded,
    }
}

/// Writes a copy of `es` into every bucket named in `fines`.
fn expand_bucket(out: &mut Sections, fines: &Vec<&str>, es: &Vec<ConfigEntry>)
    ensures
        final(out)@ == spec_expand_into(
            old(out)@,
            fines@.map_values(|s: &str| s@),
            entries_view(es@),
            0,
        ),
        old(out).wf() ==> final(out).wf(),
{
    let ghost wf0 = out.wf();
    let ghost o0 = out@;
    let ghost fv = fines@.map_values(|s: &str| s@);
    let ghost esv = entries_view(es@);
    let mut j: usize = 0;
    while j < fines.len()
        invariant
            0 <= j <= fines@.len(),
            fv == fines@.map_values(|s: &str| s@),
            esv == entries_view(es@),
            wf0 ==> out.wf(),
            spec_expand_into(o0, fv, esv, 0) == spec_expand_into(out@, fv, esv, j as int),
        decreases fines@.len() - j,
    {
        assert(fv[j as int] == fines@[j as int]@);
        out.set_bucket(fines[j], clone_entries(es));
        j += 1;
    }
    assert(out@ == spec_expand_into(o0, fv, esv, 0));
}

/// Appends, for each name in `targets`, a copy of the split with `model`
/// set to that name.
fn rehome_clones(out: &mut Sections, targets: &Vec<&str>, total: usize, gpu: usize)
    ensures
        final(out)@ == spec_append_clones(
            old(out)@,
            targets@.map_values(|s: &str| s@),
            total,
            gpu,
            0,
        ),
        old(out).wf() ==> final(out).wf(),
{
    let ghost wf0 = out.wf();
    let ghost o0 = out@;
    let ghost tv = targets@.map_values(|s: &str| s@);
    let mut j: usize = 0;
    while j < targets.len()
        invariant
            0 <= j <= targets@.len(),
            tv == targets@.map_values(|s: &str| s@),
            wf0 ==> out.wf(),
            spec_append_clones(o0, tv, total, gpu, 0) == spec_append_clones(
                out@,
                tv,
                total,
                gpu,
                j as int,
            ),
        decreases targets@.len() - j,
    {
        assert(tv[j as int] == targets@[j as int]@);
        let target = targets[j];
        let e = ConfigEntry::GpuMem(
            GpuMem { total_ramsize: Some(total), gpu_ramsize: gpu, model: Some(target.to_owned()) },
        );
        out.push_entry(target, e);
        j += 1;
    }
}

/// Builds the bucket `es` with every entry equal to the split `g` removed.
fn remove_gpumem_entries(es: &Vec<ConfigEntry>, g: &GpuMem) -> (r: Vec<ConfigEntry>)
    ensures
        entries_view(r@) == spec_remove_gpumem_from(entries_view(es@), 0, g@),
{
    let ghost esv = entries_view(es@);
    let mut r: Vec<ConfigEntry> = Vec::new();
    let mut k: usize = 0;
    while k < es.len()
        invariant
            0 <= k <= es@.len(),
            esv == entries_view(es@),
            entries_view(r@) + spec_remove_gpumem_from(esv, k as int, g@) =~= spec_remove_gpumem_from(
                esv,
                0,
                g@,
            ),
        decreases es@.len() - k,
    {
        assert(esv[k as int] == es@[k as int]@);
        let e = &es[k];
        if !entry_is_gpumem(e, g) {
            let ghost pre0 = entries_view(r@);
            let kept = e.clone();
            let ghost keptv = kept@;
            r.push(kept);
            proof {
                assert(entries_view(r@) =~= pre0.push(keptv));
                assert(pre0 + (seq![keptv] + spec_remove_gpumem_from(esv, k + 1, g@)) =~= pre0.push(
                    keptv,
                ) + spec_remove_gpumem_from(esv, k + 1, g@));
            }
        }
        k += 1;
    }
    assert(entries_view(r@) + Seq::<ConfigEntryV>::empty() =~= entries_view(r@));
    r
}

/// Removes every entry equal to the split `g` from the catch-all bucket
/// of `out`, if that bucket exists.
fn remove_in_all(out: &mut Sections, g: &GpuMem)
    ensures
        final(out)@ == spec_remove_in_all(old(out)@, g@),
        old(out).wf() ==> final(out).wf(),
{
    let filtered = match out.get("all") {
        Some(es) => remove_gpumem_entries(es, g),
        None => {
            return ;
        },
    };
    out.set_bucket("all", filtered);
}

/// Turns the coarse filter mapping into the fine-grained model mapping:
/// every coarse bucket is copied to the models its filter expands to (an
/// unrecognized filter is skipped), and catch-all memory splits with a
/// recognized total size move to their models' buckets.
pub fn arrange_for_uboot(piconfigs: &Sections) -> (r: Sections)
    ensures
        r@ == spec_arrange(piconfigs@),
        r.wf(),
{
    let ghost m = piconfigs@;
    let mut out = Sections::new();
    let mut i: usize = 0;
    while i < piconfigs.sections.len()
        invariant
            0 <= i <= piconfigs@.len(),
            m == piconfigs@,
            out.wf(),
            spec_expand_from(m, 0, Seq::empty()) == spec_expand_from(m, i as int, out@),
        decreases piconfigs@.len() - i,
    {
        assert(m[i as int].0 == piconfigs.sections@[i as int].name@);
        assert(m[i as int].1 == entries_view(piconfigs.sections@[i as int].entries@));
        let name = &piconfigs.sections[i].name;
        let es = &piconfigs.sections[i].entries;
        if str_eq(name.as_str(), "all") {
            let fines: Vec<&str> = vec!["all"];
            assert(fines@.map_values(|s: &str| s@) =~= seq!["all"@]);
            expand_bucket(&mut out, &fines, es);
        } else if str_eq(name.as_str(), "pi3") {
            let fines: Vec<&str> = vec![
                "3 Model B",
                "3 Model B+",
                "3 Model A+",
                "Compute Module 3",
                "Compute Module 3+",
            ];
            assert(fines@.map_values(|s: &str| s@) =~= seq![
                "3 Model B"@,
                "3 Model B+"@,
                "3 Model A+"@,
                "Compute Module 3"@,
                "Compute Module 3+"@,
            ]);
            expand_bucket(&mut out, &fines, es);
        } else if str_eq(name.as_str(), "pi3+") {
            let fines: Vec<&str> = vec!["3 Model B+", "3 Model A+"];
            assert(fines@.map_values(|s: &str| s@) =~= seq!["3 Model B+"@, "3 Model A+"@]);
            expand_bucket(&mut out, &fines, es);
        } else if str_eq(name.as_str(), "pi4") {
            let fines: Vec<&str> = vec!["4 Model B", "400", "Compute Module 4"];
            assert(fines@.map_values(|s: &str| s@) =~= seq![
                "4 Model B"@,
                "400"@,
                "Compute Module 4"@,
            ]);
            expand_bucket(&mut out, &fines, es);
        } else if str_eq(name.as_str(), "pi0") {
            let fines: Vec<&str> = vec!["Zero", "Zero W", "Zero 2 W"];
            assert(fines@.map_values(|s: &str| s@) =~= seq!["Zero"@, "Zero W"@, "Zero 2 W"@]);
            expand_bucket(&mut out, &fines, es);
        } else if str_eq(name.as_str(), "pi0w") {
            let fines: Vec<&str> = vec!["Zero W", "Zero 2 W"];
            assert(fines@.map_values(|s: &str| s@) =~= seq!["Zero W"@, "Zero 2 W"@]);
            expand_bucket(&mut out, &fines, es);
        } else {
            // An unsupported coarse filter: skipped, never fatal.
        }
        i += 1;
    }
    let ghost expanded = out@;
    assert(expanded == spec_expand_from(m, 0, Seq::empty()));
    let all_entries = match piconfigs.get("all") {
        Some(es) => es,
        None => {
            return out;
        },
    };
    let ghost all_esv = entries_view(all_entries@);
    let mut k: usize = 0;
    while k < all_entries.len()
        invariant
            0 <= k <= all_entries@.len(),
            all_esv == entries_view(all_entries@),
            out.wf(),
            spec_rehome_from(all_esv, 0, expanded) == spec_rehome_from(all_esv, k as int, out@),
        decreases all_entries@.len() - k,
    {
        assert(all_esv[k as int] == all_entries@[k as int]@);
        match &all_entries[k] {
            ConfigEntry::GpuMem(g) => {
                match g.total_ramsize {
                    Some(t) => {
                        if t == 256 || t == 512 || t == 1024 {
                            let targets: Vec<&str> = if t == 512 {
                                vec!["Zero", "Zero W", "3 Model A+"]
                            } else if t == 1024 {
                                vec![
                                    "3 Model B",
                                    "3 Model B+",
                                    "Compute Module 3",
                                    "Compute Module 3+",
                                    "4 Model B",
                                    "400",
                                    "Compute Module 4",
                                ]
                            } else {
                                Vec::new()
                            };
                            assert(targets@.map_values(|s: &str| s@) =~= spec_rehome_targets(t));
                            rehome_clones(&mut out, &targets, t, g.gpu_ramsize);
                            remove_in_all(&mut out, g);
                        }
                    },
                    None => {},
                }
            },
            _ => {},
        }
        k += 1;
    }
    out
}

/// What writing one coarse bucket's copies does to lookups: every fine
/// name named from `i` on holds the copied entries, every other bucket
/// is untouched.
proof fn lemma_expand_into_sees(
    out: SectionsV,
    fines: Seq<Seq<char>>,
    es: Seq<ConfigEntryV>,
    i: int,
)
    requires
        0 <= i <= fines.len(),
    ensures
        forall|fi: int| i <= fi < fines.len() ==> sec_lookup(
            spec_expand_into(out, fines, es, i),
            fines[fi],
        ) == Some(es),
        forall|name: Seq<char>|
            !fines.subrange(i, fines.len() as int).contains(name) ==> sec_lookup(
                spec_expand_into(out, fines, es, i),
                name,
            ) == sec_lookup(out, name),
    decreases fines.len() - i,
{
    if i < fines.len() {
        let out2 = sec_replace(out, fines[i], es);
        lemma_sec_replace_sees(out, fines[i], es);
        lemma_expand_into_sees(out2, fines, es, i + 1);
        let r = spec_expand_into(out, fines, es, i);
        assert(r == spec_expand_into(out2, fines, es, i + 1));
        assert forall|fi: int| i <= fi < fines.len() implies sec_lookup(r, fines[fi]) == Some(
            es,
        ) by {
            if fi > i && !fines.subrange(i + 1, fines.len() as int).contains(fines[fi]) {
                assert(fines.subrange(i + 1, fines.len() as int)[fi - i - 1] == fines[fi]);
            }
            if fi == i && !fines.subrange(i + 1, fines.len() as int).contains(fines[i]) {
                assert(sec_lookup(r, fines[i]) == sec_lookup(out2, fines[i]));
            }
        }
        assert forall|name: Seq<char>|
            !fines.subrange(i, fines.len() as int).contains(name) implies sec_lookup(r, name)
            == sec_lookup(out, name) by {
            assert(forall|fi: int|
                i + 1 <= fi < fines.len() && fines[fi] == name ==> fines.subrange(
                    i,
                    fines.len() as int,
                )[fi - i] == name);
            assert(!fines.subrange(i + 1, fines.len() as int).contains(name));
            assert(fines.subrange(i, fines.len() as int)[0] == fines[i]);
            assert(name != fines[i]);
        }
    }
}

/// An entry that keeps the re-homing pass still: anything but a memory
/// split whose declared total size the re-homing table recognizes.
pub open spec fn rehome_still(e: ConfigEntryV) -> bool {
    match e {
        ConfigEntryV::GpuMem(g) => match g.total_ramsize {
            Some(t) => !spec_rehome_known(t),
            None => true,
        },
        _ => true,
    }
}

/// A catch-all bucket whose entries all keep the re-homing pass still
/// re-homes nothing.
proof fn lemma_rehome_no_mem(all_es: Seq<ConfigEntryV>, i: int, out: SectionsV)
    requires
        0 <= i <= all_es.len(),
        forall|k: int| 0 <= k < all_es.len() ==> rehome_still(#[trigger] all_es[k]),
    ensures
        spec_rehome_from(all_es, i, out) == out,
    decreases all_es.len() - i,
{
    if i < all_es.len() {
        assert(rehome_still(all_es[i]));
        assert(spec_rehome_step(out, all_es[i]) == out);
        lemma_rehome_no_mem(all_es, i + 1, out);
    }
}

/// No fine name in the expansion of a coarse name other than the
/// catch-all is the catch-all name.
proof fn lemma_fines_not_all(coarse: Seq<char>)
    requires
        spec_expansion(coarse) is Some,
        coarse != "all"@,
    ensures
        forall|fi: int|
            0 <= fi < spec_expansion(coarse)->Some_0.len() ==> spec_expansion(coarse)->Some_0[fi]
                != "all"@,
{
    reveal_strlit("all");
    reveal_strlit("3 Model B");
    reveal_strlit("3 Model B+");
    reveal_strlit("3 Model A+");
    reveal_strlit("Compute Module 3");
    reveal_strlit("Compute Module 3+");
    reveal_strlit("4 Model B");
    reveal_strlit("400");
    reveal_strlit("Compute Module 4");
    reveal_strlit("Zero");
    reveal_strlit("Zero W");
    reveal_strlit("Zero 2 W");
    assert("400"@[0] != "all"@[0]);
    assert("400"@ != "all"@);
}

/// Expansion completeness: arranging a mapping of one catch-all bucket
/// that triggers no re-homing and one coarse bucket from the table gives
/// every fine name of the coarse name's expansion set a copy of the
/// coarse bucket's entries in their original order, and passes the
/// catch-all bucket through unexpanded.
pub proof fn lemma_expansion_completeness(
    all_es: Seq<ConfigEntryV>,
    coarse: Seq<char>,
    es: Seq<ConfigEntryV>,
)
    requires
        spec_expansion(coarse) is Some,
        coarse != "all"@,
        forall|k: int| 0 <= k < all_es.len() ==> rehome_still(#[trigger] all_es[k]),
    ensures
        ({
            let fines = spec_expansion(coarse)->Some_0;
            let r = spec_arrange(seq![("all"@, all_es), (coarse, es)]);
            &&& forall|fi: int| 0 <= fi < fines.len() ==> sec_lookup(r, fines[fi]) == Some(es)
            &&& sec_lookup(r, "all"@) == Some(all_es)
        }),
{
    let m: SectionsV = seq![("all"@, all_es), (coarse, es)];
    let fines = spec_expansion(coarse)->Some_0;
    let empty_out = Seq::<(Seq<char>, Seq<ConfigEntryV>)>::empty();
    assert(m[0] == ("all"@, all_es));
    assert(m[1] == (coarse, es));
    assert(spec_expansion("all"@) == Some(seq!["all"@]));
    let o1 = spec_expand_into(empty_out, seq!["all"@], all_es, 0);
    assert(seq!["all"@][0] == "all"@);
    assert(o1 == spec_expand_into(sec_replace(empty_out, "all"@, all_es), seq!["all"@], all_es, 1));
    assert(o1 == sec_replace(empty_out, "all"@, all_es));
    lemma_sec_replace_sees(empty_out, "all"@, all_es);
    let o2 = spec_expand_into(o1, fines, es, 0);
    assert(spec_expand_from(m, 0, empty_out) == spec_expand_from(m, 1, o1));
    assert(spec_expand_from(m, 1, o1) == spec_expand_from(m, 2, o2));
    assert(spec_expand_from(m, 2, o2) == o2);
    lemma_expand_into_sees(o1, fines, es, 0);
    lemma_fines_not_all(coarse);
    assert(!fines.subrange(0, fines.len() as int).contains("all"@)) by {
        assert(forall|fi: int|
            0 <= fi < fines.len() ==> fines.subrange(0, fines.len() as int)[fi] == fines[fi]);
    }
    assert(sec_lookup(o2, "all"@) == Some(all_es));
    assert(sec_lookup(m, "all"@) == Some(all_es));
    lemma_rehome_no_mem(all_es, 0, o2);
}

/// Memory re-homing exclusivity: a catch-all memory split declaring a
/// 1024 MiB total appears, after arrangement, in exactly the seven
/// model buckets of the 1024 row of the re-homing table, each copy with
/// its `model` set to that bucket's name, and is gone from the
/// catch-all bucket.
pub proof fn lemma_rehome_exclusive_1024(gpu: usize)
    ensures
        ({
            let g = GpuMemV { total_ramsize: Some(1024), gpu_ramsize: gpu, model: None };
            let r = spec_arrange(seq![("all"@, seq![ConfigEntryV::GpuMem(g)])]);
            let targets = spec_rehome_targets(1024);
            &&& forall|ti: int|
                0 <= ti < targets.len() ==> sec_lookup(r, targets[ti]) == Some(
                    seq![
                        ConfigEntryV::GpuMem(
                            GpuMemV {
                                total_ramsize: Some(1024),
                                gpu_ramsize: gpu,
                                model: Some(targets[ti]),
                            },
                        ),
                    ],
                )
            &&& sec_lookup(r, "all"@) == Some(Seq::<ConfigEntryV>::empty())
            &&& sec_lookup(r, "Zero"@) is None
            &&& sec_lookup(r, "Zero W"@) is None
            &&& sec_lookup(r, "Zero 2 W"@) is None
        }),
{
    let g = GpuMemV { total_ramsize: Some(1024), gpu_ramsize: gpu, model: None };
    let ge = ConfigEntryV::GpuMem(g);
    let all_es: Seq<ConfigEntryV> = seq![ge];
    let m: SectionsV = seq![("all"@, all_es)];
    let empty_out = Seq::<(Seq<char>, Seq<ConfigEntryV>)>::empty();
    assert(m[0] == ("all"@, all_es));
    assert(spec_expansion("all"@) == Some(seq!["all"@]));
    let o1 = spec_expand_into(empty_out, seq!["all"@], all_es, 0);
    assert(seq!["all"@][0] == "all"@);
    assert(o1 == spec_expand_into(sec_replace(empty_out, "all"@, all_es), seq!["all"@], all_es, 1));
    assert(o1 == sec_replace(empty_out, "all"@, all_es));
    assert(sec_find_from(empty_out, "all"@, 0) is None);
    assert(o1 =~= seq![("all"@, all_es)]);
    lemma_sec_replace_sees(empty_out, "all"@, all_es);
    assert(spec_expand_from(m, 0, empty_out) == spec_expand_from(m, 1, o1));
    assert(spec_expand_from(m, 1, o1) == o1);
    assert(sec_lookup(m, "all"@) == Some(all_es));
    let targets = spec_rehome_targets(1024);
    let appended = spec_append_clones(o1, targets, 1024, gpu, 0);
    assert(spec_rehome_step(o1, ge) == spec_remove_in_all(appended, g));
    lemma_targets_1024_not_all();
    assert forall|ti: int| 0 <= ti < targets.len() implies (#[trigger] sec_lookup(
        o1,
        targets[ti],
    )) is None by {
        assert(targets[ti] != "all"@);
        assert(sec_find_from(o1, targets[ti], 1) is None);
    }
    lemma_append_clones_sees(o1, targets, 1024, gpu, 0);
    assert(!targets.subrange(0, targets.len() as int).contains("all"@)) by {
        assert(forall|ti: int|
            0 <= ti < targets.len() ==> targets.subrange(0, targets.len() as int)[ti]
                == targets[ti]);
    }
    assert(sec_lookup(appended, "all"@) == Some(all_es));
    let cleaned = spec_remove_in_all(appended, g);
    assert(all_es[0] == ConfigEntryV::GpuMem(g));
    assert(spec_remove_gpumem_from(all_es, 1, g) =~= Seq::<ConfigEntryV>::empty());
    assert(spec_remove_gpumem_from(all_es, 0, g) =~= Seq::<ConfigEntryV>::empty());
    assert(cleaned == sec_replace(appended, "all"@, Seq::<ConfigEntryV>::empty()));
    lemma_sec_replace_sees(appended, "all"@, Seq::<ConfigEntryV>::empty());
    assert(spec_rehome_from(all_es, 0, o1) == spec_rehome_from(all_es, 1, cleaned));
    assert(spec_rehome_from(all_es, 1, cleaned) == cleaned);
    lemma_zero_names_absent(o1, appended, targets, g, gpu);
    assert forall|ti: int| 0 <= ti < targets.len() implies sec_lookup(cleaned, targets[ti])
        == Some(
        seq![
            ConfigEntryV::GpuMem(
                GpuMemV { total_ramsize: Some(1024), gpu_ramsize: gpu, model: Some(targets[ti]) },
            ),
        ],
    ) by {
        lemma_targets_1024_not_all();
        assert(targets[ti] != "all"@);
        assert(sec_lookup(cleaned, targets[ti]) == sec_lookup(appended, targets[ti]));
    }
}

/// What appending the re-homed copies does to lookups, when the target
/// names are pairwise distinct and absent from the mapping: each target
/// bucket holds exactly its copy, every other bucket is untouched.
proof fn lemma_append_clones_sees(
    out: SectionsV,
    targets: Seq<Seq<char>>,
    total: usize,
    gpu: usize,
    i: int,
)
    requires
        0 <= i <= targets.len(),
        forall|a: int, b: int| i <= a < b < targets.len() ==> targets[a] != targets[b],
        forall|fi: int| i <= fi < targets.len() ==> sec_lookup(out, targets[fi]) is None,
    ensures
        forall|fi: int| i <= fi < targets.len() ==> sec_lookup(
            spec_append_clones(out, targets, total, gpu, i),
            targets[fi],
        ) == Some(
            seq![
                ConfigEntryV::GpuMem(
                    GpuMemV {
                        total_ramsize: Some(total),
                        gpu_ramsize: gpu,
                        model: Some(targets[fi]),
                    },
                ),
            ],
        ),
        forall|name: Seq<char>|
            !targets.subrange(i, targets.len() as int).contains(name) ==> sec_lookup(
                spec_append_clones(out, targets, total, gpu, i),
                name,
            ) == sec_lookup(out, name),
    decreases targets.len() - i,
{
    if i < targets.len() {
        let e = ConfigEntryV::GpuMem(
            GpuMemV { total_ramsize: Some(total), gpu_ramsize: gpu, model: Some(targets[i]) },
        );
        let out2 = sec_append(out, targets[i], e);
        lemma_sec_append_sees(out, targets[i], e);
        assert(sec_lookup(out2, targets[i]) == Some(seq![e])) by {
            assert(Seq::<ConfigEntryV>::empty().push(e) =~= seq![e]);
        }
        assert(forall|fi: int|
            i + 1 <= fi < targets.len() ==> sec_lookup(out2, targets[fi]) == sec_lookup(
                out,
                targets[fi],
            ));
        lemma_append_clones_sees(out2, targets, total, gpu, i + 1);
        let r = spec_append_clones(out, targets, total, gpu, i);
        assert(r == spec_append_clones(out2, targets, total, gpu, i + 1));
        assert(!targets.subrange(i + 1, targets.len() as int).contains(targets[i])) by {
            assert(forall|fi: int|
                i + 1 <= fi < targets.len() ==> targets.subrange(i + 1, targets.len() as int)[fi - i
                    - 1] == targets[fi]);
        }
        assert(sec_lookup(r, targets[i]) == Some(seq![e]));
        assert forall|name: Seq<char>|
            !targets.subrange(i, targets.len() as int).contains(name) implies sec_lookup(r, name)
            == sec_lookup(out, name) by {
            assert(forall|fi: int|
                i <= fi < targets.len() ==> targets.subrange(i, targets.len() as int)[fi - i]
                    == targets[fi]);
            assert(!targets.subrange(i + 1, targets.len() as int).contains(name)) by {
                assert(forall|fi: int|
                    i + 1 <= fi < targets.len() && targets[fi] == name ==> targets.subrange(
                        i,
                        targets.len() as int,
                    )[fi - i] == name);
            }
            assert(name != targets[i]);
        }
    }
}

/// The seven 1024 MiB re-homing targets are pairwise distinct and none
/// of them is the catch-all name.
proof fn lemma_targets_1024_not_all()
    ensures
        forall|a: int, b: int|
            0 <= a < b < spec_rehome_targets(1024).len() ==> spec_rehome_targets(1024)[a]
                != spec_rehome_targets(1024)[b],
        forall|ti: int|
            0 <= ti < spec_rehome_targets(1024).len() ==> spec_rehome_targets(1024)[ti] != "all"@,
{
    reveal_strlit("all");
    reveal_strlit("3 Model B");
    reveal_strlit("3 Model B+");
    reveal_strlit("Compute Module 3");
    reveal_strlit("Compute Module 3+");
    reveal_strlit("4 Model B");
    reveal_strlit("400");
    reveal_strlit("Compute Module 4");
    assert("all"@.len() == 3);
    assert("3 Model B"@.len() == 9);
    assert("3 Model B+"@.len() == 10);
    assert("Compute Module 3"@.len() == 16);
    assert("Compute Module 3+"@.len() == 17);
    assert("4 Model B"@.len() == 9);
    assert("400"@.len() == 3);
    assert("Compute Module 4"@.len() == 16);
    assert("3 Model B"@[0] != "4 Model B"@[0]);
    assert("3 Model B"@ != "4 Model B"@);
    assert("Compute Module 3"@[15] != "Compute Module 4"@[15]);
    assert("Compute Module 3"@ != "Compute Module 4"@);
    assert("400"@[0] != "all"@[0]);
    assert("400"@ != "all"@);
    let t = spec_rehome_targets(1024);
    assert(t.len() == 7);
    assert(t[0] == "3 Model B"@ && t[1] == "3 Model B+"@ && t[2] == "Compute Module 3"@ && t[3]
        == "Compute Module 3+"@ && t[4] == "4 Model B"@ && t[5] == "400"@ && t[6]
        == "Compute Module 4"@);
}

/// After expansion of a catch-all-only mapping and the appending of the
/// 1024 MiB copies, the never-targeted Zero-family buckets are absent.
proof fn lemma_zero_names_absent(
    o1: SectionsV,
    appended: SectionsV,
    targets: Seq<Seq<char>>,
    g: GpuMemV,
    gpu: usize,
)
    requires
        o1.len() == 1,
        o1[0].0 == "all"@,
        targets == spec_rehome_targets(1024),
        appended == spec_append_clones(o1, targets, 1024, gpu, 0),
    ensures
        sec_lookup(sec_replace(appended, "all"@, Seq::<ConfigEntryV>::empty()), "Zero"@) is None,
        sec_lookup(sec_replace(appended, "all"@, Seq::<ConfigEntryV>::empty()), "Zero W"@) is None,
        sec_lookup(
            sec_replace(appended, "all"@, Seq::<ConfigEntryV>::empty()),
            "Zero 2 W"@,
        ) is None,
{
    reveal_strlit("all");
    reveal_strlit("Zero");
    reveal_strlit("Zero W");
    reveal_strlit("Zero 2 W");
    reveal_strlit("3 Model B");
    reveal_strlit("3 Model B+");
    reveal_strlit("Compute Module 3");
    reveal_strlit("Compute Module 3+");
    reveal_strlit("4 Model B");
    reveal_strlit("400");
    reveal_strlit("Compute Module 4");
    lemma_targets_1024_not_all();
    assert forall|name: Seq<char>|
        name == "Zero"@ || name == "Zero W"@ || name == "Zero 2 W"@ implies sec_lookup(
        sec_replace(appended, "all"@, Seq::<ConfigEntryV>::empty()),
        name,
    ) is None by {
        assert("all"@.len() == 3);
        assert("Zero"@.len() == 4);
        assert("Zero W"@.len() == 6);
        assert("Zero 2 W"@.len() == 8);
        assert(name != "all"@);
        assert(sec_lookup(o1, name) is None) by {
            assert(sec_find_from(o1, name, 1) is None);
        }
        assert(!targets.subrange(0, targets.len() as int).contains(name)) by {
            assert(forall|ti: int|
                0 <= ti < targets.len() ==> targets.subrange(0, targets.len() as int)[ti]
                    == targets[ti]);
            assert("Zero"@ != "3 Model B"@ && "Zero"@ != "3 Model B+"@ && "Zero"@
                != "Compute Module 3"@ && "Zero"@ != "Compute Module 3+"@ && "Zero"@
                != "4 Model B"@ && "Zero"@ != "400"@ && "Zero"@ != "Compute Module 4"@);
            assert("Zero W"@ != "3 Model B"@ && "Zero W"@ != "3 Model B+"@ && "Zero W"@
                != "Compute Module 3"@ && "Zero W"@ != "Compute Module 3+"@ && "Zero W"@
                != "4 Model B"@ && "Zero W"@ != "400"@ && "Zero W"@ != "Compute Module 4"@);
            assert("Zero 2 W"@ != "3 Model B"@ && "Zero 2 W"@ != "3 Model B+"@ && "Zero 2 W"@
                != "Compute Module 3"@ && "Zero 2 W"@ != "Compute Module 3+"@ && "Zero 2 W"@
                != "4 Model B"@ && "Zero 2 W"@ != "400"@ && "Zero 2 W"@ != "Compute Module 4"@);
        }
        assert forall|ti: int| 0 <= ti < targets.len() implies (#[trigger] sec_lookup(
            o1,
            targets[ti],
        )) is None by {
            assert(targets[ti] != "all"@);
            assert(sec_find_from(o1, targets[ti], 1) is None);
        }
        lemma_append_clones_sees(o1, targets, 1024, gpu, 0);
        assert(sec_lookup(appended, name) is None);
        lemma_sec_replace_sees(appended, "all"@, Seq::<ConfigEntryV>::empty());
    }
}

} // verus!
