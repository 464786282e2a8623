use vstd::prelude::*;

use crate::kernel::{
    classify_spec, empty_record, fold_spec, found_items, linked, links_ok, paths_view, scan_items, scans_ok,
    represents, sorted_strict, DirScans, InstalledItemKind, InstalledKernel, ItemView, KernelRecord,
};
use crate::paths::{file_name_of, filename_or_empty};
use crate::text::{all_digits, digit_value, digits_value, ends_with, is_digit, lacks, parse_u32_spec, starts_with};
use crate::version::{
    version_less,
    counterpart, lemma_render_of_parse, old_suffix, parse_spec, parts_ok, rc_field, version_of_parts, written_name,
    lemma_version_order, written_release, KernelVersion,
};

verus! {

/// `5.4.97-gentoo`: the name of a module directory.
pub open spec fn release_name() -> Seq<char> {
    seq!['5', '.', '4', '.', '9', '7', '-', 'g', 'e', 'n', 't', 'o', 'o']
}

/// `<n>-5.4.97-gentoo`.
pub open spec fn named(n: Seq<char>) -> Seq<char> {
    n + seq!['-'] + release_name()
}

pub open spec fn vmlinuz() -> Seq<char> {
    seq!['v', 'm', 'l', 'i', 'n', 'u', 'z']
}

pub open spec fn config() -> Seq<char> {
    seq!['c', 'o', 'n', 'f', 'i', 'g']
}

pub open spec fn system_map() -> Seq<char> {
    seq!['S', 'y', 's', 't', 'e', 'm', '.', 'm', 'a', 'p']
}

pub open spec fn linux() -> Seq<char> {
    seq!['l', 'i', 'n', 'u', 'x']
}

/// Version 5.4.97, current.
pub open spec fn v5497() -> KernelVersion {
    KernelVersion { major: 5, minor: 4, patch: 97, release_candidate_num: None, current: true }
}

proof fn lemma_release_parts()
    ensures
        parts_ok(seq!['5'], seq!['4'], seq!['9', '7'], None, seq!['g', 'e', 'n', 't', 'o', 'o']),
        digits_value(seq!['5']) == 5,
        digits_value(seq!['4']) == 4,
        digits_value(seq!['9', '7']) == 97,
{
    let c = seq!['9', '7'];
    let x = seq!['g', 'e', 'n', 't', 'o', 'o'];
    assert(seq!['5'].drop_last() =~= Seq::<char>::empty());
    assert(seq!['4'].drop_last() =~= Seq::<char>::empty());
    assert(c.drop_last() =~= seq!['9']);
    assert(seq!['9'].drop_last() =~= Seq::<char>::empty());
    assert(digits_value(Seq::<char>::empty()) == 0);
    assert(digit_value('9') == 9);
    assert(digit_value('7') == 7);
    assert(digit_value('5') == 5);
    assert(digit_value('4') == 4);
    assert(digits_value(seq!['9']) == 9);
    assert(all_digits(c));
    assert(all_digits(seq!['5']));
    assert(all_digits(seq!['4']));
    assert(lacks(x, '-'));
    assert(!is_digit(x[0]));
    assert(!all_digits(x));
    assert(parse_u32_spec(x) is None);
    assert(x.take(2)[0] == 'g');
    assert(seq!['r', 'c'][0] == 'r');
    assert(rc_field(x) is None);
}

proof fn lemma_release_name_reads(n: Seq<char>)
    requires
        n.len() == 0 || (!is_digit(n[0]) && lacks(n, '-')),
    ensures
        parse_spec(if n.len() == 0 { release_name() } else { named(n) }) == Some(v5497()),
{
    let a = seq!['5'];
    let b = seq!['4'];
    let c = seq!['9', '7'];
    let x = seq!['g', 'e', 'n', 't', 'o', 'o'];
    lemma_release_parts();
    lemma_render_of_parse(n, a, b, c, None, x);
    let s = written_name(n, a, b, c, None, x);
    assert(written_release(a, b, c, None, x) =~= release_name());
    assert(s =~= if n.len() == 0 { release_name() } else { named(n) });
    assert(s.skip(s.len() - 4)[0] == 'n');
    assert(old_suffix()[0] == '.');
    assert(!ends_with(s, old_suffix()));
    assert(version_of_parts(a, b, c, None, s) == v5497());
}

/// A name `n-...` starts with `n-`, and with no text that differs from it in
/// the first character.
proof fn lemma_named_prefix(n: Seq<char>, p: Seq<char>)
    requires
        n.len() > 0,
    ensures
        starts_with(named(n), n + seq!['-']),
        p.len() > 0 && p[0] != n[0] ==> !starts_with(named(n), p),
{
    assert(named(n).take(n.len() as int + 1) =~= n + seq!['-']);
    if p.len() > 0 && p[0] != n[0] && p.len() <= named(n).len() {
        assert(named(n).take(p.len() as int)[0] == n[0]);
    }
}

proof fn lemma_named_reads(n: Seq<char>, kind: InstalledItemKind, path: Seq<char>)
    requires
        n.len() > 0,
        !is_digit(n[0]),
        lacks(n, '-'),
        file_name_of(path) == Some(named(n)),
    ensures
        classify_spec(kind, path) == Some(ItemView { kind, version: v5497(), path }),
{
    lemma_release_name_reads(n);
}

/// The items of a three-path listing where only the path at `k` passes.
proof fn lemma_scan_of_three(
    kind: InstalledItemKind,
    ps: Seq<Seq<char>>,
    prefix: Seq<char>,
    k: int,
    it: ItemView,
)
    requires
        ps.len() == 3,
        0 <= k < 3,
        starts_with(filename_or_empty(ps[k]), prefix),
        classify_spec(kind, ps[k]) == Some(it),
        k != 0 ==> !starts_with(filename_or_empty(ps[0]), prefix),
        k != 1 ==> !starts_with(filename_or_empty(ps[1]), prefix),
        k != 2 ==> !starts_with(filename_or_empty(ps[2]), prefix),
    ensures
        scan_items(kind, ps, prefix) == seq![it],
{
    let p2 = seq![ps[0], ps[1]];
    let p1 = seq![ps[0]];
    assert(ps.drop_last() =~= p2);
    assert(p2.drop_last() =~= p1);
    assert(p1.drop_last() =~= Seq::<Seq<char>>::empty());
    assert(p1.last() == ps[0]);
    assert(p2.last() == ps[1]);
    assert(ps.last() == ps[2]);
    assert(scan_items(kind, Seq::<Seq<char>>::empty(), prefix) == Seq::<ItemView>::empty());
    let e = Seq::<ItemView>::empty();
    let s1 = if k == 0 { seq![it] } else { e };
    let s2 = if k <= 1 { s1 + (if k == 1 { seq![it] } else { e }) } else { e };
    assert(scan_items(kind, p1, prefix) =~= s1);
    assert(scan_items(kind, p2, prefix) =~= if k <= 1 { seq![it] } else { e });
    if k == 2 {
        assert(scan_items(kind, p2, prefix) =~= e);
        assert(starts_with(filename_or_empty(ps.last()), prefix));
        assert(classify_spec(kind, ps.last()) == Some(it));
        assert(e.push(it) =~= seq![it]);
        assert(scan_items(kind, ps, prefix) == scan_items(kind, p2, prefix).push(it));
    } else {
        assert(scan_items(kind, p2, prefix) =~= seq![it]);
        assert(!starts_with(filename_or_empty(ps.last()), prefix));
        assert(scan_items(kind, ps, prefix) == scan_items(kind, p2, prefix));
    }
}

/// The items of a one-path listing whose path passes.
proof fn lemma_scan_one(kind: InstalledItemKind, ps: Seq<Seq<char>>, prefix: Seq<char>, it: ItemView)
    requires
        ps.len() == 1,
        starts_with(filename_or_empty(ps[0]), prefix),
        classify_spec(kind, ps[0]) == Some(it),
    ensures
        scan_items(kind, ps, prefix) == seq![it],
{
    assert(ps.drop_last() =~= Seq::<Seq<char>>::empty());
    assert(ps.last() == ps[0]);
    assert(scan_items(kind, Seq::<Seq<char>>::empty(), prefix) == Seq::<ItemView>::empty());
    assert(Seq::<ItemView>::empty().push(it) =~= seq![it]);
    assert(scan_items(kind, ps, prefix) =~= seq![it]);
}

proof fn lemma_name_facts()
    ensures
        !is_digit(vmlinuz()[0]) && lacks(vmlinuz(), '-'),
        !is_digit(config()[0]) && lacks(config(), '-'),
        !is_digit(system_map()[0]) && lacks(system_map(), '-'),
        !is_digit(linux()[0]) && lacks(linux(), '-'),
        "vmlinuz-"@ == vmlinuz() + seq!['-'],
        "config-"@ == config() + seq!['-'],
        "System.map-"@ == system_map() + seq!['-'],
        "linux-"@ == linux() + seq!['-'],
{
    reveal_strlit("vmlinuz-");
    reveal_strlit("config-");
    reveal_strlit("System.map-");
    reveal_strlit("linux-");
    assert("vmlinuz-"@ =~= vmlinuz() + seq!['-']);
    assert("config-"@ =~= config() + seq!['-']);
    assert("System.map-"@ =~= system_map() + seq!['-']);
    assert("linux-"@ =~= linux() + seq!['-']);
}

proof fn lemma_fold_five(i0: Seq<char>, i1: Seq<char>, i2: Seq<char>, src: Seq<char>, md: Seq<char>)
    ensures
        fold_spec(
            seq![
                ItemView { kind: InstalledItemKind::KernelImage, version: v5497(), path: i0 },
                ItemView { kind: InstalledItemKind::Config, version: v5497(), path: i1 },
                ItemView { kind: InstalledItemKind::SystemMap, version: v5497(), path: i2 },
                ItemView { kind: InstalledItemKind::SourceDir, version: v5497(), path: src },
                ItemView { kind: InstalledItemKind::ModuleDir, version: v5497(), path: md },
            ],
        ) == map![v5497() => full_record(i0, i1, i2, src, md)],
{
    let v = v5497();
    let it0 = ItemView { kind: InstalledItemKind::KernelImage, version: v, path: i0 };
    let it1 = ItemView { kind: InstalledItemKind::Config, version: v, path: i1 };
    let it2 = ItemView { kind: InstalledItemKind::SystemMap, version: v, path: i2 };
    let it3 = ItemView { kind: InstalledItemKind::SourceDir, version: v, path: src };
    let it4 = ItemView { kind: InstalledItemKind::ModuleDir, version: v, path: md };
    let s5 = seq![it0, it1, it2, it3, it4];
    let s4 = seq![it0, it1, it2, it3];
    let s3 = seq![it0, it1, it2];
    let s2 = seq![it0, it1];
    let s1 = seq![it0];
    assert(s5.drop_last() =~= s4);
    assert(s4.drop_last() =~= s3);
    assert(s3.drop_last() =~= s2);
    assert(s2.drop_last() =~= s1);
    assert(s1.drop_last() =~= Seq::<ItemView>::empty());
    let r1 = KernelRecord { vmlinuz_path: Some(i0), ..empty_record(v) };
    let r2 = KernelRecord { config_path: Some(i1), ..r1 };
    let r3 = KernelRecord { system_map_path: Some(i2), ..r2 };
    let r4 = KernelRecord { source_path: Some(src), ..r3 };
    assert(s1.last() == it0 && s2.last() == it1 && s3.last() == it2 && s4.last() == it3);
    assert(s5.last() == it4);
    assert(fold_spec(Seq::<ItemView>::empty()) == Map::<KernelVersion, KernelRecord>::empty());
    assert(fold_spec(s1) =~= map![v => r1]);
    assert(fold_spec(s2) =~= map![v => r2]);
    assert(fold_spec(s3) =~= map![v => r3]);
    assert(fold_spec(s4) =~= map![v => r4]);
    assert(fold_spec(s5) =~= map![v => full_record(i0, i1, i2, src, md)]);
}

/// The record of 5.4.97 with all five paths.
pub open spec fn full_record(i0: Seq<char>, i1: Seq<char>, i2: Seq<char>, src: Seq<char>, md: Seq<char>) -> KernelRecord {
    KernelRecord {
        version: v5497(),
        modules_path: Some(md),
        source_path: Some(src),
        vmlinuz_path: Some(i0),
        config_path: Some(i1),
        system_map_path: Some(i2),
    }
}

/// Listings that hold the five files of one kernel, 5.4.97 (boot image,
/// config and symbol map in the install directory, `linux-5.4.97-gentoo` in
/// the source directory, `5.4.97-gentoo` in the module directory), give one
/// complete record for 5.4.97 with each of the five paths. The file names are
/// stated of the paths as `Path::file_name` gives them.
pub proof fn lemma_one_complete_install(
    s: DirScans,
    i0: Seq<char>,
    i1: Seq<char>,
    i2: Seq<char>,
    src: Seq<char>,
    md: Seq<char>,
)
    requires
        scans_ok(s),
        paths_view(s.install->Ok_0) == seq![i0, i1, i2],
        paths_view(s.source->Ok_0) == seq![src],
        paths_view(s.module->Ok_0) == seq![md],
        file_name_of(i0) == Some(named(vmlinuz())),
        file_name_of(i1) == Some(named(config())),
        file_name_of(i2) == Some(named(system_map())),
        file_name_of(src) == Some(named(linux())),
        file_name_of(md) == Some(release_name()),
    ensures
        links_ok(fold_spec(found_items(s))),
        linked(fold_spec(found_items(s))) == map![v5497() => full_record(i0, i1, i2, src, md)],
{
    lemma_name_facts();
    let install = seq![i0, i1, i2];
    let it0 = ItemView { kind: InstalledItemKind::KernelImage, version: v5497(), path: i0 };
    let it1 = ItemView { kind: InstalledItemKind::Config, version: v5497(), path: i1 };
    let it2 = ItemView { kind: InstalledItemKind::SystemMap, version: v5497(), path: i2 };
    let it3 = ItemView { kind: InstalledItemKind::SourceDir, version: v5497(), path: src };
    let it4 = ItemView { kind: InstalledItemKind::ModuleDir, version: v5497(), path: md };
    lemma_named_reads(vmlinuz(), InstalledItemKind::KernelImage, i0);
    lemma_named_reads(config(), InstalledItemKind::Config, i1);
    lemma_named_reads(system_map(), InstalledItemKind::SystemMap, i2);
    lemma_named_reads(linux(), InstalledItemKind::SourceDir, src);
    lemma_release_name_reads(Seq::empty());
    assert(filename_or_empty(i0) == named(vmlinuz()));
    assert(filename_or_empty(i1) == named(config()));
    assert(filename_or_empty(i2) == named(system_map()));
    assert(filename_or_empty(src) == named(linux()));
    assert(filename_or_empty(md) == release_name());
    let vp = vmlinuz() + seq!['-'];
    let cp = config() + seq!['-'];
    let mp = system_map() + seq!['-'];
    lemma_named_prefix(vmlinuz(), cp);
    lemma_named_prefix(vmlinuz(), mp);
    lemma_named_prefix(config(), vp);
    lemma_named_prefix(config(), mp);
    lemma_named_prefix(system_map(), vp);
    lemma_named_prefix(system_map(), cp);
    lemma_named_prefix(linux(), vp);
    assert(vp[0] != config()[0] && vp[0] != system_map()[0]);
    assert(cp[0] != vmlinuz()[0] && cp[0] != system_map()[0]);
    assert(mp[0] != vmlinuz()[0] && mp[0] != config()[0]);
    lemma_scan_of_three(InstalledItemKind::KernelImage, install, vp, 0, it0);
    assert(release_name().take(0) =~= Seq::<char>::empty());
    lemma_scan_one(InstalledItemKind::SourceDir, seq![src], linux() + seq!['-'], it3);
    lemma_scan_one(InstalledItemKind::ModuleDir, seq![md], Seq::empty(), it4);
    lemma_scan_of_three(InstalledItemKind::Config, install, cp, 1, it1);
    lemma_scan_of_three(InstalledItemKind::SystemMap, install, mp, 2, it2);
    let items = seq![it0, it1, it2, it3, it4];
    assert(found_items(s) =~= items);
    lemma_fold_five(i0, i1, i2, src, md);
    let m = fold_spec(items);
    assert(m.dom() =~= set![v5497()]);
    assert(links_ok(m));
    assert(linked(m) =~= map![v5497() => full_record(i0, i1, i2, src, md)]);
}

/// A sorted result that holds the records of a one-version map holds exactly
/// that record: with `lemma_one_complete_install`, `execute` on such listings
/// returns one complete record.
pub proof fn lemma_single_result(ks: Seq<InstalledKernel>, v: KernelVersion, r: KernelRecord)
    requires
        sorted_strict(ks),
        represents(ks, map![v => r]),
    ensures
        ks.len() == 1,
        ks[0]@ == r,
{
    assert(map![v => r].contains_key(v));
    let i = choose|i: int| 0 <= i < ks.len() && #[trigger] ks[i].version == v;
    if ks.len() >= 2 {
        assert(map![v => r].contains_key(ks[0].version));
        assert(map![v => r].contains_key(ks[1].version));
        assert(ks[0].version == v && ks[1].version == v);
        assert(version_less(ks[0].version, ks[1].version));
        lemma_version_order(v, v, v);
    }
    assert(map![v => r].contains_key(ks[0].version));
}

/// Version 5.4.97, a `.old` install.
pub open spec fn v5497_old() -> KernelVersion {
    KernelVersion { current: false, ..v5497() }
}

proof fn lemma_old_name_reads(path: Seq<char>)
    requires
        file_name_of(path) == Some(named(vmlinuz()) + old_suffix()),
    ensures
        classify_spec(InstalledItemKind::KernelImage, path) == Some(
            ItemView { kind: InstalledItemKind::KernelImage, version: v5497_old(), path },
        ),
        starts_with(filename_or_empty(path), vmlinuz() + seq!['-']),
        !starts_with(filename_or_empty(path), config() + seq!['-']),
        !starts_with(filename_or_empty(path), system_map() + seq!['-']),
{
    lemma_name_facts();
    let a = seq!['5'];
    let b = seq!['4'];
    let c = seq!['9', '7'];
    let g = seq!['g', 'e', 'n', 't', 'o', 'o'];
    let x = g + old_suffix();
    lemma_release_parts();
    assert(lacks(old_suffix(), '-'));
    assert(lacks(x, '-')) by {
        assert forall|i: int| 0 <= i < x.len() implies x[i] != '-' by {
            if i < g.len() {
                assert(x[i] == g[i]);
            } else {
                assert(x[i] == old_suffix()[i - g.len()]);
            }
        }
    }
    assert(x[0] == 'g');
    assert(!is_digit(x[0]));
    assert(!all_digits(x));
    assert(parse_u32_spec(x) is None);
    assert(x.take(2)[0] == 'g');
    assert(seq!['r', 'c'][0] == 'r');
    assert(rc_field(x) is None);
    lemma_render_of_parse(vmlinuz(), a, b, c, None, x);
    let name = written_name(vmlinuz(), a, b, c, None, x);
    assert(name =~= named(vmlinuz()) + old_suffix());
    assert(name.skip(name.len() - 4) =~= old_suffix());
    assert(version_of_parts(a, b, c, None, name) == v5497_old());
    let vp = vmlinuz() + seq!['-'];
    assert(name.take(vp.len() as int) =~= vp);
    let cp = config() + seq!['-'];
    let mp = system_map() + seq!['-'];
    assert(name.take(cp.len() as int)[0] != cp[0]);
    assert(name.take(mp.len() as int)[0] != mp[0]);
}

/// Scanning one more path.
proof fn lemma_scan_push(kind: InstalledItemKind, ps: Seq<Seq<char>>, p: Seq<char>, prefix: Seq<char>)
    ensures
        scan_items(kind, ps.push(p), prefix) == if starts_with(filename_or_empty(p), prefix)
            && classify_spec(kind, p) is Some {
            scan_items(kind, ps, prefix).push(classify_spec(kind, p)->Some_0)
        } else {
            scan_items(kind, ps, prefix)
        },
{
    assert(ps.push(p).drop_last() =~= ps);
    assert(ps.push(p).last() == p);
}

/// The record of 5.4.97.old: its own boot image, and the module and source
/// directories of 5.4.97.
pub open spec fn old_record(i3: Seq<char>, src: Seq<char>, md: Seq<char>) -> KernelRecord {
    KernelRecord {
        version: v5497_old(),
        modules_path: Some(md),
        source_path: Some(src),
        vmlinuz_path: Some(i3),
        config_path: None,
        system_map_path: None,
    }
}

proof fn lemma_fold_six(i0: Seq<char>, i1: Seq<char>, i2: Seq<char>, i3: Seq<char>, src: Seq<char>, md: Seq<char>)
    ensures
        fold_spec(
            seq![
                ItemView { kind: InstalledItemKind::KernelImage, version: v5497(), path: i0 },
                ItemView { kind: InstalledItemKind::KernelImage, version: v5497_old(), path: i3 },
                ItemView { kind: InstalledItemKind::Config, version: v5497(), path: i1 },
                ItemView { kind: InstalledItemKind::SystemMap, version: v5497(), path: i2 },
                ItemView { kind: InstalledItemKind::SourceDir, version: v5497(), path: src },
                ItemView { kind: InstalledItemKind::ModuleDir, version: v5497(), path: md },
            ],
        ) == map![
            v5497() => full_record(i0, i1, i2, src, md),
            v5497_old() => KernelRecord { vmlinuz_path: Some(i3), ..empty_record(v5497_old()) }
        ],
{
    let v = v5497();
    let w = v5497_old();
    let it0 = ItemView { kind: InstalledItemKind::KernelImage, version: v, path: i0 };
    let ito = ItemView { kind: InstalledItemKind::KernelImage, version: w, path: i3 };
    let it1 = ItemView { kind: InstalledItemKind::Config, version: v, path: i1 };
    let it2 = ItemView { kind: InstalledItemKind::SystemMap, version: v, path: i2 };
    let it3 = ItemView { kind: InstalledItemKind::SourceDir, version: v, path: src };
    let it4 = ItemView { kind: InstalledItemKind::ModuleDir, version: v, path: md };
    let s6 = seq![it0, ito, it1, it2, it3, it4];
    let s5 = seq![it0, ito, it1, it2, it3];
    let s4 = seq![it0, ito, it1, it2];
    let s3 = seq![it0, ito, it1];
    let s2 = seq![it0, ito];
    let s1 = seq![it0];
    assert(s6.drop_last() =~= s5);
    assert(s5.drop_last() =~= s4);
    assert(s4.drop_last() =~= s3);
    assert(s3.drop_last() =~= s2);
    assert(s2.drop_last() =~= s1);
    assert(s1.drop_last() =~= Seq::<ItemView>::empty());
    assert(s1.last() == it0 && s2.last() == ito && s3.last() == it1 && s4.last() == it2);
    assert(s5.last() == it3 && s6.last() == it4);
    assert(v != w);
    let ro = KernelRecord { vmlinuz_path: Some(i3), ..empty_record(w) };
    let r1 = KernelRecord { vmlinuz_path: Some(i0), ..empty_record(v) };
    let r2 = KernelRecord { config_path: Some(i1), ..r1 };
    let r3 = KernelRecord { system_map_path: Some(i2), ..r2 };
    let r4 = KernelRecord { source_path: Some(src), ..r3 };
    assert(fold_spec(Seq::<ItemView>::empty()) == Map::<KernelVersion, KernelRecord>::empty());
    assert(fold_spec(s1) =~= map![v => r1]);
    assert(fold_spec(s2) =~= map![v => r1, w => ro]);
    assert(fold_spec(s3) =~= map![v => r2, w => ro]);
    assert(fold_spec(s4) =~= map![v => r3, w => ro]);
    assert(fold_spec(s5) =~= map![v => r4, w => ro]);
    assert(fold_spec(s6) =~= map![v => full_record(i0, i1, i2, src, md), w => ro]);
}

/// Listings as in `lemma_one_complete_install`, plus the boot image of a
/// `.old` install of 5.4.97 and no module or source directory of its own,
/// give two records, 5.4.97.old and 5.4.97; the `.old` one has the module and
/// source directories of 5.4.97.
pub proof fn lemma_old_install_shares(
    s: DirScans,
    i0: Seq<char>,
    i1: Seq<char>,
    i2: Seq<char>,
    i3: Seq<char>,
    src: Seq<char>,
    md: Seq<char>,
)
    requires
        scans_ok(s),
        paths_view(s.install->Ok_0) == seq![i0, i1, i2, i3],
        paths_view(s.source->Ok_0) == seq![src],
        paths_view(s.module->Ok_0) == seq![md],
        file_name_of(i0) == Some(named(vmlinuz())),
        file_name_of(i1) == Some(named(config())),
        file_name_of(i2) == Some(named(system_map())),
        file_name_of(i3) == Some(named(vmlinuz()) + old_suffix()),
        file_name_of(src) == Some(named(linux())),
        file_name_of(md) == Some(release_name()),
    ensures
        links_ok(fold_spec(found_items(s))),
        linked(fold_spec(found_items(s))) == map![
            v5497() => full_record(i0, i1, i2, src, md),
            v5497_old() => old_record(i3, src, md)
        ],
{
    lemma_name_facts();
    let three = seq![i0, i1, i2];
    let install = three.push(i3);
    assert(install =~= seq![i0, i1, i2, i3]);
    let it0 = ItemView { kind: InstalledItemKind::KernelImage, version: v5497(), path: i0 };
    let ito = ItemView { kind: InstalledItemKind::KernelImage, version: v5497_old(), path: i3 };
    let it1 = ItemView { kind: InstalledItemKind::Config, version: v5497(), path: i1 };
    let it2 = ItemView { kind: InstalledItemKind::SystemMap, version: v5497(), path: i2 };
    let it3 = ItemView { kind: InstalledItemKind::SourceDir, version: v5497(), path: src };
    let it4 = ItemView { kind: InstalledItemKind::ModuleDir, version: v5497(), path: md };
    lemma_named_reads(vmlinuz(), InstalledItemKind::KernelImage, i0);
    lemma_named_reads(config(), InstalledItemKind::Config, i1);
    lemma_named_reads(system_map(), InstalledItemKind::SystemMap, i2);
    lemma_named_reads(linux(), InstalledItemKind::SourceDir, src);
    lemma_old_name_reads(i3);
    lemma_release_name_reads(Seq::empty());
    assert(filename_or_empty(i0) == named(vmlinuz()));
    assert(filename_or_empty(i1) == named(config()));
    assert(filename_or_empty(i2) == named(system_map()));
    assert(filename_or_empty(src) == named(linux()));
    assert(filename_or_empty(md) == release_name());
    let vp = vmlinuz() + seq!['-'];
    let cp = config() + seq!['-'];
    let mp = system_map() + seq!['-'];
    lemma_named_prefix(vmlinuz(), cp);
    lemma_named_prefix(vmlinuz(), mp);
    lemma_named_prefix(config(), vp);
    lemma_named_prefix(config(), mp);
    lemma_named_prefix(system_map(), vp);
    lemma_named_prefix(system_map(), cp);
    lemma_named_prefix(linux(), vp);
    assert(vp[0] != config()[0] && vp[0] != system_map()[0]);
    assert(cp[0] != vmlinuz()[0] && cp[0] != system_map()[0]);
    assert(mp[0] != vmlinuz()[0] && mp[0] != config()[0]);
    lemma_scan_of_three(InstalledItemKind::KernelImage, three, vp, 0, it0);
    lemma_scan_of_three(InstalledItemKind::Config, three, cp, 1, it1);
    lemma_scan_of_three(InstalledItemKind::SystemMap, three, mp, 2, it2);
    lemma_scan_push(InstalledItemKind::KernelImage, three, i3, vp);
    lemma_scan_push(InstalledItemKind::Config, three, i3, cp);
    lemma_scan_push(InstalledItemKind::SystemMap, three, i3, mp);
    assert(seq![it0].push(ito) =~= seq![it0, ito]);
    assert(release_name().take(0) =~= Seq::<char>::empty());
    lemma_scan_one(InstalledItemKind::SourceDir, seq![src], linux() + seq!['-'], it3);
    lemma_scan_one(InstalledItemKind::ModuleDir, seq![md], Seq::empty(), it4);
    let items = seq![it0, ito, it1, it2, it3, it4];
    assert(found_items(s) =~= items);
    lemma_fold_six(i0, i1, i2, i3, src, md);
    let m = fold_spec(items);
    let v = v5497();
    let w = v5497_old();
    assert(counterpart(w) == v);
    assert(m.dom() =~= set![v, w]);
    assert(links_ok(m));
    assert(linked(m) =~= map![v => full_record(i0, i1, i2, src, md), w => old_record(i3, src, md)]);
}

/// A sorted result that holds the records of a two-version map holds those
/// two records, older first.
pub proof fn lemma_two_results(
    ks: Seq<InstalledKernel>,
    v: KernelVersion,
    r: KernelRecord,
    w: KernelVersion,
    q: KernelRecord,
)
    requires
        version_less(w, v),
        sorted_strict(ks),
        represents(ks, map![v => r, w => q]),
    ensures
        ks.len() == 2,
        ks[0]@ == q,
        ks[1]@ == r,
{
    let m = map![v => r, w => q];
    lemma_version_order(w, v, w);
    assert(m.contains_key(v) && m.contains_key(w));
    let i = choose|i: int| 0 <= i < ks.len() && #[trigger] ks[i].version == v;
    let j = choose|j: int| 0 <= j < ks.len() && #[trigger] ks[j].version == w;
    if i < j {
        assert(version_less(ks[i].version, ks[j].version));
    }
    assert(j < i);
    if ks.len() > 2 {
        let k = if i != 0 && j != 0 { 0 } else if i != 1 && j != 1 { 1 } else { 2 };
        assert(m.contains_key(ks[k].version));
        if k < j {
            assert(version_less(ks[k].version, ks[j].version));
            lemma_version_order(ks[k].version, w, v);
        } else if k < i {
            assert(version_less(ks[j].version, ks[k].version));
            assert(version_less(ks[k].version, ks[i].version));
            lemma_version_order(w, ks[k].version, v);
        } else {
            assert(version_less(ks[i].version, ks[k].version));
            lemma_version_order(v, ks[k].version, v);
        }
    }
    assert(j == 0 && i == 1);
}

} // verus!
