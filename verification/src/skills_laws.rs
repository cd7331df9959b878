//! What holds of every listing of skills, and of every export of them.

use vstd::prelude::*;

use crate::archive::Flaw;
use crate::command::Matches;
use crate::json;
use crate::json::Json;
use crate::listing;
use crate::listing::ListingView;
use crate::paths;
use crate::skills;
use crate::skills::{ExportTrouble, ExportedView, MetaView, PlanView};
use crate::skills_cli;
use crate::skills_cli::SkillsAsk;
use crate::text;

verus! {

// ---------------------------------------------------------------------------
// Paths
// ---------------------------------------------------------------------------

/// Two dots stand at `at` with nothing on either side but a slash or an end.
pub open spec fn climbs_at(rel: Seq<char>, at: int) -> bool {
    &&& 0 <= at && at + 2 <= rel.len()
    &&& rel[at] == '.' && rel[at + 1] == '.'
    &&& at == 0 || rel[at - 1] == '/'
    &&& at + 2 == rel.len() || rel[at + 2] == '/'
}

/// The start of the part that a path ends with.
spec fn last_start(s: Seq<char>) -> int
    decreases s.len(),
{
    if s.len() == 0 {
        0
    } else if s.last() == '/' {
        s.len() as int
    } else {
        last_start(s.drop_last())
    }
}

proof fn last_piece_is_the_rest(s: Seq<char>)
    ensures
        0 <= last_start(s) <= s.len(),
        text::pieces(s, '/').len() >= 1,
        text::pieces(s, '/').last() == s.subrange(last_start(s), s.len() as int),
        last_start(s) == 0 || s[last_start(s) - 1] == '/',
        forall|i: int| last_start(s) <= i < s.len() ==> #[trigger] s[i] != '/',
    decreases s.len(),
{
    text::pieces_nonempty(s, '/');
    if s.len() > 0 {
        let less = s.drop_last();
        last_piece_is_the_rest(less);
        text::pieces_nonempty(less, '/');
        let from = last_start(s);
        if s.last() == '/' {
            assert(text::pieces(s, '/').last() =~= s.subrange(from, s.len() as int));
        } else {
            assert(text::pieces(s, '/').last() == text::pieces(less, '/').last().push(s.last()));
            assert(text::pieces(s, '/').last() =~= s.subrange(from, s.len() as int));
            assert(from > 0 ==> s[from - 1] == less[from - 1]);
            assert forall|i: int| from <= i < s.len() implies #[trigger] s[i] != '/' by {
                if i < less.len() {
                    assert(less[i] != '/');
                }
            }
        }
    } else {
        assert(text::pieces(s, '/').last() =~= s.subrange(0, 0));
    }
}

/// A part of `s` before its last one is two dots.
spec fn climbed_before(s: Seq<char>) -> bool {
    exists|at: int| #[trigger] climbs_at(s, at) && at + 2 < s.len()
}

proof fn finished_parts_stay(s: Seq<char>)
    ensures
        text::pieces(s, '/').drop_last().contains(".."@) <==> climbed_before(s),
    decreases s.len(),
{
    reveal_strlit("..");
    text::pieces_nonempty(s, '/');
    let all = text::pieces(s, '/');
    if s.len() > 0 {
        let less = s.drop_last();
        finished_parts_stay(less);
        last_piece_is_the_rest(less);
        text::pieces_nonempty(less, '/');
        let before = text::pieces(less, '/');
        let from = last_start(less);
        if s.last() == '/' {
            assert(all.drop_last() =~= before);
            assert(before =~= before.drop_last().push(before.last()));
            if before.contains(".."@) {
                let k = choose|k: int| 0 <= k < before.len() && before[k] == ".."@;
                if k < before.len() - 1 {
                    assert(before.drop_last()[k] == ".."@);
                    let at = choose|at: int| #[trigger] climbs_at(less, at) && at + 2 < less.len();
                    assert(climbs_at(s, at));
                } else {
                    assert(before.last() == ".."@);
                    assert(before.last().len() == 2);
                    assert(less.len() == from + 2);
                    assert(less[from] == before.last()[0]);
                    assert(less[from + 1] == before.last()[1]);
                    assert(climbs_at(s, from));
                }
            }
            if climbed_before(s) {
                let at = choose|at: int| #[trigger] climbs_at(s, at) && at + 2 < s.len();
                if at + 2 < less.len() {
                    assert(climbs_at(less, at));
                    let k = choose|k: int|
                        0 <= k < before.drop_last().len() && before.drop_last()[k] == ".."@;
                    assert(before[k] == ".."@);
                } else {
                    assert(s[at] == less[at] && s[at + 1] == less[at + 1]);
                    assert(at > 0 ==> less[at - 1] == '/');
                    assert(from == at) by {
                        if from < at {
                            assert(less[at - 1] != '/');
                        }
                        if from > at {
                            assert(less[from - 1] == '/');
                            assert(from - 1 == at || from - 1 == at + 1);
                        }
                    }
                    assert(before.last() =~= ".."@);
                    assert(before[before.len() - 1] == ".."@);
                }
            }
        } else {
            assert(all.drop_last() =~= before.drop_last());
            if climbed_before(less) {
                let at = choose|at: int| #[trigger] climbs_at(less, at) && at + 2 < less.len();
                assert(climbs_at(s, at));
            }
            if climbed_before(s) {
                let at = choose|at: int| #[trigger] climbs_at(s, at) && at + 2 < s.len();
                assert(s[at + 2] == '/');
                assert(climbs_at(less, at));
            }
        }
    } else {
        assert(all.drop_last() =~= Seq::empty());
    }
}

/// A path goes outside the directory that it is put under where it starts at the root,
/// or where a whole part of it is two dots; no other does.
pub proof fn only_climbing_paths_escape(rel: Seq<char>)
    ensures
        skills::escapes(rel) <==> (rel.len() > 0 && rel[0] == '/') || (exists|at: int| #[trigger]
            climbs_at(rel, at)),
{
    reveal_strlit("..");
    finished_parts_stay(rel);
    last_piece_is_the_rest(rel);
    let all = text::pieces(rel, '/');
    let from = last_start(rel);
    assert(all =~= all.drop_last().push(all.last()));
    if all.contains(".."@) {
        let k = choose|k: int| 0 <= k < all.len() && all[k] == ".."@;
        if k < all.len() - 1 {
            assert(all.drop_last()[k] == ".."@);
            let at = choose|at: int| #[trigger] climbs_at(rel, at) && at + 2 < rel.len();
            assert(climbs_at(rel, at));
        } else {
            assert(all.last() == ".."@);
            assert(all.last().len() == 2);
            assert(rel.len() == from + 2);
            assert(all.last()[0] == rel[from]);
            assert(all.last()[1] == rel[from + 1]);
            assert(climbs_at(rel, from));
        }
    }
    if exists|at: int| #[trigger] climbs_at(rel, at) {
        let at = choose|at: int| #[trigger] climbs_at(rel, at);
        if at + 2 < rel.len() {
            assert(climbed_before(rel));
            let k = choose|k: int| 0 <= k < all.drop_last().len() && all.drop_last()[k] == ".."@;
            assert(all[k] == ".."@);
        } else {
            assert(from == at) by {
                if from < at {
                    assert(rel[at - 1] != '/');
                }
                if from > at {
                    assert(rel[from - 1] == '/');
                }
            }
            assert(all.last() =~= ".."@);
            assert(all[all.len() - 1] == ".."@);
        }
    }
}

// ---------------------------------------------------------------------------
// Exports
// ---------------------------------------------------------------------------

/// A path of the archive is of a skill: it starts with the skill's name and a slash.
pub open spec fn belongs(path: Seq<char>, name: Seq<char>) -> bool {
    &&& path.len() > name.len()
    &&& path.take(name.len() as int) == name
    &&& path[name.len() as int] == '/'
}

proof fn belonging_is_a_beginning(path: Seq<char>, name: Seq<char>)
    ensures
        text::begins(path, name + "/"@) <==> belongs(path, name),
{
    reveal_strlit("/");
    let n = name.len() as int;
    if belongs(path, name) {
        assert(path.take(n + 1) =~= name + "/"@) by {
            assert forall|i: int| 0 <= i < n implies path.take(n + 1)[i] == (name + "/"@)[i] by {
                assert(path.take(n)[i] == name[i]);
            }
        }
    }
    if text::begins(path, name + "/"@) {
        assert(path.take(n + 1) == name + "/"@);
        assert(path.take(n) =~= name) by {
            assert forall|i: int| 0 <= i < n implies path.take(n)[i] == name[i] by {
                assert(path.take(n + 1)[i] == (name + "/"@)[i]);
            }
        }
        assert(path.take(n + 1)[n] == (name + "/"@)[n]);
    }
}

/// The files of a skill in an archive, where they go under a directory.
pub open spec fn files_of(
    entries: Seq<(Seq<char>, Seq<u8>)>,
    name: Seq<char>,
    dir: Seq<u8>,
) -> Seq<(Seq<u8>, Seq<u8>)> {
    entries.filter(|entry: (Seq<char>, Seq<u8>)| belongs(entry.0, name)).map_values(
        |entry: (Seq<char>, Seq<u8>)|
            (paths::joined_path(dir, vstd::utf8::encode_utf8(entry.0)), entry.1),
    )
}

/// No path of a skill goes outside.
pub open spec fn stays_inside(entries: Seq<(Seq<char>, Seq<u8>)>, name: Seq<char>) -> bool {
    forall|i: int|
        0 <= i < entries.len() && belongs((#[trigger] entries[i]).0, name) ==> !skills::escapes(
            entries[i].0,
        )
}

/// A skill whose paths all stay inside has exactly its files written, all of them and
/// in order, each with its own contents; one that has a path which goes outside is
/// refused for the first such path.
pub proof fn every_file_is_written(
    entries: Seq<(Seq<char>, Seq<u8>)>,
    name: Seq<char>,
    dir: Seq<u8>,
)
    ensures
        stays_inside(entries, name) ==> skills::gathered(entries, name, dir) == (
            files_of(entries, name, dir),
            None::<Seq<char>>,
        ),
        stays_inside(entries, name) <==> skills::gathered(entries, name, dir).1 is None,
    decreases entries.len(),
{
    reveal(Seq::filter);
    let keep = |entry: (Seq<char>, Seq<u8>)| belongs(entry.0, name);
    let place = |entry: (Seq<char>, Seq<u8>)|
        (paths::joined_path(dir, vstd::utf8::encode_utf8(entry.0)), entry.1);
    if entries.len() == 0 {
        assert(files_of(entries, name, dir) =~= Seq::empty());
    } else {
        let less = entries.drop_last();
        let last = entries.last();
        every_file_is_written(less, name, dir);
        belonging_is_a_beginning(last.0, name);
        assert(entries[entries.len() - 1] == last);
        assert forall|i: int| 0 <= i < less.len() implies #[trigger] less[i] == entries[i] by {}
        if stays_inside(entries, name) {
            assert forall|i: int|
                0 <= i < less.len() && belongs(
                    (#[trigger] less[i]).0,
                    name,
                ) implies !skills::escapes(less[i].0) by {
                assert(less[i] == entries[i]);
            }
        } else {
            let i = choose|i: int|
                0 <= i < entries.len() && belongs((#[trigger] entries[i]).0, name)
                    && skills::escapes(entries[i].0);
            if i < less.len() {
                assert(less[i] == entries[i]);
            }
        }
        if belongs(last.0, name) {
            assert(entries.filter(keep) == less.filter(keep).push(last));
            assert(files_of(entries, name, dir) =~= files_of(less, name, dir).push(place(last)));
        } else {
            assert(entries.filter(keep) == less.filter(keep));
        }
    }
}

/// The first path that goes outside is the one that is named, and the files before it
/// are written.
pub proof fn the_first_escape_is_named(
    entries: Seq<(Seq<char>, Seq<u8>)>,
    name: Seq<char>,
    dir: Seq<u8>,
    at: int,
)
    requires
        0 <= at < entries.len(),
        belongs(entries[at].0, name),
        skills::escapes(entries[at].0),
        stays_inside(entries.take(at), name),
    ensures
        skills::gathered(entries, name, dir) == (
            files_of(entries.take(at), name, dir),
            Some(entries[at].0),
        ),
    decreases entries.len(),
{
    let less = entries.drop_last();
    if at < less.len() {
        assert(less.take(at) =~= entries.take(at));
        the_first_escape_is_named(less, name, dir, at);
    } else {
        assert(less =~= entries.take(at));
        every_file_is_written(less, name, dir);
        belonging_is_a_beginning(entries.last().0, name);
    }
}

/// A skill that is asked for by name is the first that has it, and where none has, the
/// asker is told the name and every name that there is; where none is asked for, all
/// are.
pub proof fn the_named_skill_is_wanted(all: Seq<MetaView>, name: Seq<char>, at: int)
    ensures
        skills::wanted(all, None) == Ok::<Seq<MetaView>, ExportTrouble>(all),
        0 <= at < all.len() && all[at].name == name && (forall|j: int|
            0 <= j < at ==> (#[trigger] all[j]).name != name) ==> skills::wanted(all, Some(name))
            == Ok::<Seq<MetaView>, ExportTrouble>(seq![all[at]]),
        (forall|j: int| 0 <= j < all.len() ==> (#[trigger] all[j]).name != name)
            ==> skills::wanted(all, Some(name)) == Err::<Seq<MetaView>, ExportTrouble>(
            ExportTrouble::UnknownSkill {
                asked: name,
                available: text::joined(
                    Seq::new(all.len(), |i: int| all[i].name),
                    ", "@,
                ),
            },
        ),
{
    names_are_found(all, name, 0, at);
    assert(skills::skill_names(all) =~= Seq::new(all.len(), |i: int| all[i].name));
}

proof fn names_are_found(all: Seq<MetaView>, name: Seq<char>, from: int, at: int)
    requires
        0 <= from,
    ensures
        from <= at < all.len() && all[at].name == name && (forall|j: int|
            0 <= j < at ==> (#[trigger] all[j]).name != name) ==> skills::named_from(
            all,
            name,
            from,
        ) == at,
        (forall|j: int| 0 <= j < all.len() ==> (#[trigger] all[j]).name != name)
            ==> skills::named_from(all, name, from) >= all.len(),
    decreases all.len() - from,
{
    if from < all.len() {
        let seen = all[from];
        names_are_found(all, name, from + 1, at);
    }
}

/// A skill can be exported: none of its paths goes outside, and it has as many files
/// as it claims.
pub open spec fn exportable(entries: Seq<(Seq<char>, Seq<u8>)>, skill: MetaView) -> bool {
    stays_inside(entries, skill.name) && entries.filter(
        |entry: (Seq<char>, Seq<u8>)| belongs(entry.0, skill.name),
    ).len() == skill.files
}

/// An export goes well exactly where every skill can be exported. It then answers with
/// each skill, its directory and the paths of its files.
pub proof fn exports_answer_with_what_they_wrote(
    entries: Seq<(Seq<char>, Seq<u8>)>,
    wanted: Seq<MetaView>,
    dir: Seq<u8>,
)
    ensures
        skills::planned(entries, wanted, dir).outcome is Ok <==> (forall|i: int|
            0 <= i < wanted.len() ==> exportable(entries, #[trigger] wanted[i])),
        skills::planned(entries, wanted, dir).outcome matches Ok(done) ==> done.len()
            == wanted.len() && (forall|i: int|
            0 <= i < done.len() ==> {
                let item = #[trigger] done[i];
                let files = files_of(entries, wanted[i].name, dir);
                &&& item.skill == wanted[i]
                &&& item.root == paths::joined_path(
                    dir,
                    vstd::utf8::encode_utf8(wanted[i].name),
                )
                &&& item.files == Seq::new(files.len(), |k: int| files[k].0)
            }),
    decreases wanted.len(),
{
    if wanted.len() > 0 {
        let less = wanted.drop_last();
        let skill = wanted.last();
        exports_answer_with_what_they_wrote(entries, less, dir);
        every_file_is_written(entries, skill.name, dir);
        assert(wanted[wanted.len() - 1] == skill);
        let before = skills::planned(entries, less, dir);
        let all = skills::planned(entries, wanted, dir);
        assert forall|i: int| 0 <= i < less.len() implies #[trigger] less[i] == wanted[i] by {}
        if forall|i: int| 0 <= i < wanted.len() ==> exportable(entries, #[trigger] wanted[i]) {
            assert forall|i: int| 0 <= i < less.len() implies exportable(
                entries,
                #[trigger] less[i],
            ) by {
                assert(less[i] == wanted[i]);
            }
            assert(exportable(entries, skill));
        }
        if all.outcome is Ok {
            assert(exportable(entries, skill));
            assert forall|i: int| 0 <= i < wanted.len() implies exportable(
                entries,
                #[trigger] wanted[i],
            ) by {
                if i < less.len() {
                    assert(exportable(entries, less[i]));
                }
            }
            let files = files_of(entries, skill.name, dir);
            assert(skills::targets(files) =~= Seq::new(files.len(), |k: int| files[k].0));
            let done = all.outcome->Ok_0;
            assert forall|i: int| 0 <= i < done.len() implies ({
                let item = #[trigger] done[i];
                let files = files_of(entries, wanted[i].name, dir);
                &&& item.skill == wanted[i]
                &&& item.root == paths::joined_path(
                    dir,
                    vstd::utf8::encode_utf8(wanted[i].name),
                )
                &&& item.files == Seq::new(files.len(), |k: int| files[k].0)
            }) by {
                if i < less.len() {
                    assert(done[i] == before.outcome->Ok_0[i]);
                }
            }
        }
    }
}

/// The files of an export that goes well are those of its skills, one skill after the
/// other.
pub proof fn exports_write_every_skill(
    entries: Seq<(Seq<char>, Seq<u8>)>,
    wanted: Seq<MetaView>,
    skill: MetaView,
    dir: Seq<u8>,
)
    requires
        skills::planned(entries, wanted, dir).outcome is Ok,
        stays_inside(entries, skill.name),
    ensures
        skills::planned(entries, wanted.push(skill), dir).writes == skills::planned(
            entries,
            wanted,
            dir,
        ).writes + files_of(entries, skill.name, dir),
        skills::planned(entries, wanted.push(skill), dir).outcome matches Err(trouble) ==> trouble
            matches ExportTrouble::CountMismatch { skill: named, unpacked, claimed }
            && named == skill.name && unpacked == files_of(entries, skill.name, dir).len()
            && claimed == skill.files,
{
    assert(wanted.push(skill).drop_last() =~= wanted);
    every_file_is_written(entries, skill.name, dir);
}

/// The first skill that cannot be exported ends an export, and those after it change
/// nothing.
pub proof fn the_first_trouble_ends_an_export(
    entries: Seq<(Seq<char>, Seq<u8>)>,
    wanted: Seq<MetaView>,
    more: Seq<MetaView>,
    dir: Seq<u8>,
)
    requires
        skills::planned(entries, wanted, dir).outcome is Err,
    ensures
        skills::planned(entries, wanted + more, dir) == skills::planned(entries, wanted, dir),
    decreases more.len(),
{
    if more.len() == 0 {
        assert(wanted + more =~= wanted);
    } else {
        the_first_trouble_ends_an_export(entries, wanted, more.drop_last(), dir);
        assert((wanted + more).drop_last() =~= wanted + more.drop_last());
    }
}

/// A skill that is not there is refused before the archive is looked at, and an archive
/// that cannot be read is refused before anything is written.
pub proof fn refusals_write_nothing(
    all: Seq<MetaView>,
    contents: Result<Seq<(Seq<char>, Seq<u8>)>, Flaw>,
    dir: Seq<u8>,
    only: Option<Seq<char>>,
)
    ensures
        skills::wanted(all, only) matches Err(trouble) ==> skills::export_plan(
            all,
            contents,
            dir,
            only,
        ) == (PlanView { writes: Seq::empty(), outcome: Err(trouble) }),
        skills::wanted(all, only) is Ok ==> (contents matches Err(flaw) ==> skills::export_plan(
            all,
            contents,
            dir,
            only,
        ) == (PlanView { writes: Seq::empty(), outcome: Err(ExportTrouble::Archive(flaw)) })),
        skills::wanted(all, only) matches Ok(wanted) ==> (contents matches Ok(entries)
            ==> skills::export_plan(all, contents, dir, only) == skills::planned(
            entries,
            wanted,
            dir,
        )),
{
}

// ---------------------------------------------------------------------------
// Sizes
// ---------------------------------------------------------------------------

/// The whole number of tenths nearest to a size in a unit, a half to the even one.
pub open spec fn nearest_tenths(tenths: nat, bytes: nat, unit: nat) -> bool {
    let off = 10 * bytes - tenths * unit;
    &&& -unit <= 2 * off <= unit
    &&& 2 * off == unit || 2 * off == -unit ==> tenths % 2 == 0
}

/// A number of tenths with its decimal.
pub open spec fn tenths_text(tenths: nat) -> Seq<char> {
    text::decimal(tenths / 10) + "."@ + text::decimal(tenths % 10)
}

proof fn small_sizes_are_doubles(bytes: nat)
    requires
        bytes < 0x20_0000_0000_0000,
    ensures
        skills_cli::as_double(bytes) == bytes,
{
    assert(skills_cli::spacing(bytes) == 1);
    assert(bytes / 1 == bytes && bytes % 1 == 0);
    assert(skills_cli::rounded(bytes, 1) == bytes);
    assert(skills_cli::as_double(bytes) == bytes * 1);
}

/// A size is told in bytes below a kilobyte, and from there on to the nearest tenth of
/// the largest unit that it reaches, gigabytes at most.
pub proof fn sizes_are_told_to_a_tenth(bytes: nat, tenths: nat)
    requires
        bytes < 0x20_0000_0000_0000,
    ensures
        bytes < 1024 ==> skills_cli::size_text(bytes) == text::decimal(bytes) + " B"@,
        1024 <= bytes < 1_048_576 && nearest_tenths(tenths, bytes, 1024) ==> skills_cli::size_text(
            bytes,
        ) == tenths_text(tenths) + " KB"@,
        1_048_576 <= bytes < 1_073_741_824 && nearest_tenths(tenths, bytes, 1_048_576)
            ==> skills_cli::size_text(bytes) == tenths_text(tenths) + " MB"@,
        1_073_741_824 <= bytes && nearest_tenths(tenths, bytes, 1_073_741_824)
            ==> skills_cli::size_text(bytes) == tenths_text(tenths) + " GB"@,
{
    small_sizes_are_doubles(bytes);
    let n = 10 * bytes;
    if nearest_tenths(tenths, bytes, 1024) {
        assert(skills_cli::rounded(n, 1024) == tenths);
    }
    if nearest_tenths(tenths, bytes, 1_048_576) {
        assert(skills_cli::rounded(n, 1_048_576) == tenths);
    }
    if nearest_tenths(tenths, bytes, 1_073_741_824) {
        assert(skills_cli::rounded(n, 1_073_741_824) == tenths);
    }
}

/// Two to a power.
pub open spec fn is_power_of_two(n: nat) -> bool
    decreases n,
{
    n == 1 || (n > 1 && n % 2 == 0 && is_power_of_two(n / 2))
}

proof fn spacing_fits(n: nat)
    requires
        n >= 0x10_0000_0000_0000,
    ensures
        is_power_of_two(skills_cli::spacing(n)),
        0x10_0000_0000_0000 * skills_cli::spacing(n) <= n,
        n < 0x20_0000_0000_0000 * skills_cli::spacing(n),
    decreases n,
{
    if n >= 0x20_0000_0000_0000 {
        spacing_fits(n / 2);
        let half = skills_cli::spacing(n / 2);
        assert(skills_cli::spacing(n) == 2 * half);
        assert((2 * half) / 2 == half);
    }
}

/// The size that a large one is told for is the nearest that has fifty-three binary
/// digits.
pub proof fn large_sizes_are_nearest(bytes: nat, spacing: nat)
    requires
        bytes >= 0x20_0000_0000_0000,
        spacing == skills_cli::spacing(bytes),
    ensures
        is_power_of_two(spacing),
        0x10_0000_0000_0000 * spacing <= bytes < 0x20_0000_0000_0000 * spacing,
        skills_cli::as_double(bytes) == skills_cli::rounded(bytes, spacing) * spacing,
        -(spacing as int) <= 2 * (bytes - skills_cli::as_double(bytes)) <= spacing,
{
    spacing_fits(bytes);
    let q = bytes / spacing;
    let r = bytes % spacing;
    vstd::arithmetic::div_mod::lemma_fundamental_div_mod(bytes as int, spacing as int);
    assert(0 <= r < spacing);
    assert(q * spacing + r == bytes) by (nonlinear_arith)
        requires
            bytes == spacing * q + r,
    ;
    assert((q + 1) * spacing == q * spacing + spacing) by (nonlinear_arith);
}

// ---------------------------------------------------------------------------
// Listing
// ---------------------------------------------------------------------------

/// Every skill of a listing has two lines: one with its name, its files, its size and
/// its fingerprint, and one with its description.
pub proof fn every_skill_has_its_lines(all: Seq<MetaView>, at: int)
    requires
        0 <= at < all.len(),
    ensures
        skills_cli::list_lines(all).len() == 2 * all.len(),
        skills_cli::list_lines(all)[2 * at] == all[at].name + "  "@ + text::decimal(
            all[at].files as nat,
        ) + " files  "@ + skills_cli::size_text(all[at].bytes as nat) + "  "@
            + all[at].fingerprint,
        skills_cli::list_lines(all)[2 * at + 1] == "  "@ + all[at].description,
    decreases all.len(),
{
    let less = all.drop_last();
    let before = skills_cli::list_lines(less);
    let two = skills_cli::skill_lines(all.last());
    assert(two.len() == 2);
    assert(skills_cli::list_lines(all) == before + two);
    if at < less.len() {
        every_skill_has_its_lines(less, at);
        assert(less[at] == all[at]);
        assert((before + two)[2 * at] == before[2 * at]);
        assert((before + two)[2 * at + 1] == before[2 * at + 1]);
    } else {
        if less.len() > 0 {
            every_skill_has_its_lines(less, 0);
        } else {
            assert(before.len() == 0);
        }
        assert(before.len() == 2 * at);
        assert((before + two)[2 * at] == two[0]);
        assert((before + two)[2 * at + 1] == two[1]);
        assert(all[at] == all.last());
    }
}

/// A listing is one document for a program, a sentence where there is nothing to list,
/// and lines for a person otherwise.
pub proof fn listings_fit_their_reader(
    all: Seq<MetaView>,
    server: Seq<char>,
    version: Seq<char>,
)
    ensures
        skills_cli::list_output(all, server, version, true) == seq![
            listing::listing_text((ListingView { ok: true, server, version, skills: all })),
        ],
        all.len() == 0 ==> skills_cli::list_output(all, server, version, false) == seq![
            "This build ships no skills."@,
        ],
        all.len() > 0 ==> skills_cli::list_output(all, server, version, false)
            == skills_cli::list_lines(all),
{
}

/// A person is told each skill that was exported: its name, its files, its size and
/// where it went; a program gets the same by field.
pub proof fn every_export_is_told(dir: Seq<u8>, done: Seq<ExportedView>, at: int)
    requires
        0 <= at < done.len(),
    ensures
        skills_cli::export_output(dir, done, false).len() == done.len(),
        skills_cli::export_output(dir, done, false)[at] == done[at].skill.name + "  "@
            + text::decimal(done[at].files.len()) + " files  "@ + skills_cli::size_text(
            done[at].skill.bytes as nat,
        ) + "  -> "@ + paths::lossy_text(done[at].root),
        skills_cli::export_output(dir, done, true) == seq![
            json::compact_text(skills_cli::export_document(dir, done)),
        ],
        ({
            let doc = skills_cli::export_document(dir, done);
            let item = Json::Object(skills_cli::exported_fields(done[at]));
            &&& doc.get("ok"@) == Some(Json::Bool(true))
            &&& doc.get("dir"@) == Some(Json::Text(paths::lossy_text(dir)))
            &&& doc.get("skills"@) matches Some(Json::List(items)) && items.len() == done.len()
                && items[at] == item
            &&& item.get("name"@) == Some(Json::Text(done[at].skill.name))
            &&& item.get("root"@) == Some(Json::Text(paths::lossy_text(done[at].root)))
            &&& item.get("files"@) == Some(Json::Integer(done[at].files.len() as int))
            &&& item.get("bytes"@) == Some(Json::Integer(done[at].skill.bytes as int))
            &&& item.get("fingerprint"@) == Some(Json::Text(done[at].skill.fingerprint))
        }),
{
    reveal_strlit("ok");
    reveal_strlit("dir");
    reveal_strlit("skills");
    reveal_strlit("name");
    reveal_strlit("root");
    reveal_strlit("files");
    reveal_strlit("bytes");
    reveal_strlit("fingerprint");
    assert("name"@[0] == 'n' && "root"@[0] == 'r');
    assert("files"@[0] == 'f' && "bytes"@[0] == 'b');
    assert("ok"@.len() == 2 && "dir"@.len() == 3 && "skills"@.len() == 6);
    assert("name"@.len() == 4 && "root"@.len() == 4 && "files"@.len() == 5 && "bytes"@.len() == 5
        && "fingerprint"@.len() == 11);
    let none = Seq::<(Seq<char>, Json)>::empty();
    let ok = json::with_field(none, "ok"@, Json::Bool(true));
    let spot = Json::Text(paths::lossy_text(dir));
    let placed = json::with_field(ok, "dir"@, spot);
    let list = Json::List(
        done.map_values(|item: ExportedView| Json::Object(skills_cli::exported_fields(item))),
    );
    json::set_field(none, "ok"@, Json::Bool(true), "ok"@);
    json::set_field(ok, "dir"@, spot, "ok"@);
    json::set_field(placed, "skills"@, list, "ok"@);
    json::set_field(placed, "skills"@, list, "dir"@);
    let item = done[at];
    let name = Json::Text(item.skill.name);
    let root = Json::Text(paths::lossy_text(item.root));
    let files = Json::Integer(item.files.len() as int);
    let bytes = Json::Integer(item.skill.bytes as int);
    let mark = Json::Text(item.skill.fingerprint);
    let named = json::with_field(none, "name"@, name);
    let rooted = json::with_field(named, "root"@, root);
    let counted = json::with_field(rooted, "files"@, files);
    let sized = json::with_field(counted, "bytes"@, bytes);
    json::set_field(none, "name"@, name, "name"@);
    json::set_field(named, "root"@, root, "name"@);
    json::set_field(rooted, "files"@, files, "name"@);
    json::set_field(rooted, "files"@, files, "root"@);
    json::set_field(counted, "bytes"@, bytes, "name"@);
    json::set_field(counted, "bytes"@, bytes, "root"@);
    json::set_field(counted, "bytes"@, bytes, "files"@);
    json::set_field(sized, "fingerprint"@, mark, "name"@);
    json::set_field(sized, "fingerprint"@, mark, "root"@);
    json::set_field(sized, "fingerprint"@, mark, "files"@);
    json::set_field(sized, "fingerprint"@, mark, "bytes"@);
}

/// A program reads each skill of a listing by field, under the names that installers
/// know.
pub proof fn listed_skills_have_their_fields(skill: MetaView)
    ensures
        ({
            let fields = listing::skill_fields(skill);
            &&& json::field(fields, "name"@) == Some(Json::Text(skill.name))
            &&& json::field(fields, "description"@) == Some(Json::Text(skill.description))
            &&& json::field(fields, "files"@) == Some(Json::Integer(skill.files as int))
            &&& json::field(fields, "bytes"@) == Some(Json::Integer(skill.bytes as int))
            &&& json::field(fields, "fingerprint"@) == Some(Json::Text(skill.fingerprint))
        }),
{
    reveal_strlit("name");
    reveal_strlit("description");
    reveal_strlit("files");
    reveal_strlit("bytes");
    reveal_strlit("fingerprint");
    assert("files"@[0] == 'f' && "bytes"@[0] == 'b');
    assert("description"@[0] == 'd' && "fingerprint"@[0] == 'f');
    assert("name"@.len() == 4 && "files"@.len() == 5 && "bytes"@.len() == 5);
    assert("description"@.len() == 11 && "fingerprint"@.len() == 11);
    let none = Seq::<(Seq<char>, Json)>::empty();
    let name = Json::Text(skill.name);
    let about = Json::Text(skill.description);
    let files = Json::Integer(skill.files as int);
    let bytes = Json::Integer(skill.bytes as int);
    let mark = Json::Text(skill.fingerprint);
    let named = json::with_field(none, "name"@, name);
    let described = json::with_field(named, "description"@, about);
    let counted = json::with_field(described, "files"@, files);
    let sized = json::with_field(counted, "bytes"@, bytes);
    json::set_field(none, "name"@, name, "name"@);
    json::set_field(named, "description"@, about, "name"@);
    json::set_field(described, "files"@, files, "name"@);
    json::set_field(described, "files"@, files, "description"@);
    json::set_field(counted, "bytes"@, bytes, "name"@);
    json::set_field(counted, "bytes"@, bytes, "description"@);
    json::set_field(counted, "bytes"@, bytes, "files"@);
    json::set_field(sized, "fingerprint"@, mark, "name"@);
    json::set_field(sized, "fingerprint"@, mark, "description"@);
    json::set_field(sized, "fingerprint"@, mark, "files"@);
    json::set_field(sized, "fingerprint"@, mark, "bytes"@);
}

/// A document that has the five fields of a skill is that skill, and one that has
/// something else where a text or a count should stand is none.
pub proof fn documents_say_their_skill(fields: Seq<(Seq<char>, Json)>, skill: MetaView)
    ensures
        ({
            &&& json::field(fields, "name"@) == Some(Json::Text(skill.name))
            &&& json::field(fields, "description"@) == Some(Json::Text(skill.description))
            &&& json::field(fields, "files"@) == Some(Json::Integer(skill.files as int))
            &&& json::field(fields, "bytes"@) == Some(Json::Integer(skill.bytes as int))
            &&& json::field(fields, "fingerprint"@) == Some(Json::Text(skill.fingerprint))
        }) ==> listing::skill_of_document(Json::Object(fields)) == Some(skill),
        json::field(fields, "name"@) matches Some(value) ==> !(value is Text)
            ==> listing::skill_of_document(Json::Object(fields)) is None,
        json::field(fields, "files"@) matches Some(value) ==> (match value {
            Json::Integer(n) => n < 0 || n > usize::MAX,
            _ => true,
        }) ==> listing::skill_of_document(Json::Object(fields)) is None,
        json::field(fields, "bytes"@) matches Some(value) ==> (match value {
            Json::Integer(n) => n < 0 || n > usize::MAX,
            _ => true,
        }) ==> listing::skill_of_document(Json::Object(fields)) is None,
{
}

// ---------------------------------------------------------------------------
// Asking
// ---------------------------------------------------------------------------

/// A verb is taken for what it says, with what was given under its own flags; a verb
/// that there is not asks for nothing, and so does none.
pub proof fn verbs_ask_for_what_they_say(matches: Matches)
    ensures
        matches.subcommand is None ==> skills_cli::asked(matches) is None,
        matches.subcommand matches Some(sub) ==> {
            &&& sub.0@ == "list"@ ==> skills_cli::asked(matches) == Some(
                (SkillsAsk::List { json: sub.1.set(skills_cli::json_switch().id) }),
            )
            &&& sub.0@ == "export"@ && sub.1.placed(skills_cli::dir_option().id) is Some
                ==> skills_cli::asked(matches) == Some(
                (SkillsAsk::Export {
                    dir: sub.1.placed(skills_cli::dir_option().id)->0,
                    skill: sub.1.first(skills_cli::skill_option().id),
                    json: sub.1.set(skills_cli::json_switch().id),
                }),
            )
            &&& sub.0@ != "list"@ && sub.0@ != "export"@ ==> skills_cli::asked(matches) is None
        },
{
    reveal_strlit("list");
    reveal_strlit("export");
    assert("list"@.len() == 4 && "export"@.len() == 6);
}

/// The command has the two verbs and no other, and an export cannot go without its
/// directory.
pub proof fn the_verbs_are_two()
    ensures
        ({
            let root = skills_cli::skills_command();
            &&& root.name == "skills"@
            &&& root.needs_subcommand
            &&& root.subcommands.len() == 2
            &&& root.subcommands[0].name == "list"@
            &&& root.subcommands[0].args == seq![skills_cli::json_switch()]
            &&& root.subcommands[1].name == "export"@
            &&& root.subcommands[1].args.contains(skills_cli::dir_option())
            &&& root.subcommands[1].args.contains(skills_cli::skill_option())
            &&& root.subcommands[1].args.contains(skills_cli::json_switch())
            &&& root.subcommands[1].args.len() == 3
        }),
        skills_cli::dir_option().long == Some("dir"@),
        skills_cli::dir_option().need is Required,
        skills_cli::dir_option().kind is Path,
        skills_cli::skill_option().long == Some("skill"@),
        skills_cli::skill_option().need is Optional,
        skills_cli::json_switch().long == Some("json"@),
        skills_cli::json_switch().action is Switch,
{
    let args = skills_cli::skills_command().subcommands[1].args;
    assert(args.len() == 3);
    assert(args[0] == skills_cli::dir_option());
    assert(args[1] == skills_cli::skill_option());
    assert(args[2] == skills_cli::json_switch());
}

} // verus!
