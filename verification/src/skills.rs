//! Agent skills: what an engine knows that its tool surface cannot say.
//!
//! A skill is a directory of documents. An engine ships as one executable, so
//! the tree is compressed into the binary and written back out on request. What
//! is written where is decided here; whoever holds the plan writes it.

use vstd::prelude::*;

use crate::archive;
use crate::archive::{read, ArchiveError, Flaw};
use crate::paths;
use crate::paths::{copy_bytes, join_path, path_text};
use crate::text;
use crate::text::{decimal_of, join, same, split, starts_with};

verus! {

/// One skill, as it was found when the binary was built.
#[derive(Debug, Clone, Copy)]
pub struct SkillMeta {
    pub name: &'static str,
    pub description: &'static str,
    pub files: usize,
    /// Uncompressed size of every file in the skill.
    pub bytes: usize,
    /// Opaque to everyone who reads it: the only operation is equality.
    pub fingerprint: &'static str,
}

/// What a [`SkillMeta`] says.
pub struct MetaView {
    pub name: Seq<char>,
    pub description: Seq<char>,
    pub files: usize,
    pub bytes: usize,
    pub fingerprint: Seq<char>,
}

impl View for SkillMeta {
    type V = MetaView;

    open spec fn view(&self) -> MetaView {
        MetaView {
            name: self.name@,
            description: self.description@,
            files: self.files,
            bytes: self.bytes,
            fingerprint: self.fingerprint@,
        }
    }
}

/// What a list of skills says.
pub open spec fn metas_said(skills: Seq<SkillMeta>) -> Seq<MetaView> {
    Seq::new(skills.len(), |i: int| skills[i]@)
}

/// The position of the skill of a name at or after `from`, or the number of
/// skills.
pub open spec fn named_from(skills: Seq<MetaView>, name: Seq<char>, from: int) -> int
    decreases skills.len() - from,
{
    if from >= skills.len() {
        skills.len() as int
    } else if skills[from].name == name {
        from
    } else {
        named_from(skills, name, from + 1)
    }
}

/// The names of some skills.
pub open spec fn skill_names(skills: Seq<MetaView>) -> Seq<Seq<char>> {
    skills.map_values(|skill: MetaView| skill.name)
}

/// Why an export did not happen.
#[derive(Debug)]
pub enum ExportError {
    UnknownSkill { asked: String, available: String },
    /// The archive did not parse.
    Archive(ArchiveError),
    /// A path in the archive would have landed outside the target directory.
    Traversal(String),
    CountMismatch { skill: &'static str, unpacked: usize, claimed: usize },
    Write { path: Vec<u8>, reason: String },
}

/// What an [`ExportError`] says.
pub enum ExportTrouble {
    UnknownSkill { asked: Seq<char>, available: Seq<char> },
    Archive(Flaw),
    Traversal(Seq<char>),
    CountMismatch { skill: Seq<char>, unpacked: int, claimed: int },
    Write { path: Seq<u8>, reason: Seq<char> },
}

impl ExportError {
    pub open spec fn said(&self) -> ExportTrouble {
        match self {
            ExportError::UnknownSkill { asked, available } => ExportTrouble::UnknownSkill {
                asked: asked@,
                available: available@,
            },
            ExportError::Archive(error) => ExportTrouble::Archive(error.0),
            ExportError::Traversal(path) => ExportTrouble::Traversal(path@),
            ExportError::CountMismatch { skill, unpacked, claimed } => {
                ExportTrouble::CountMismatch {
                    skill: skill@,
                    unpacked: *unpacked as int,
                    claimed: *claimed as int,
                }
            },
            ExportError::Write { path, reason } => ExportTrouble::Write {
                path: path@,
                reason: reason@,
            },
        }
    }

    /// What a reader is told.
    pub fn message(&self) -> (res: String)
        ensures
            res@ == export_trouble_text(self.said()),
    {
        match self {
            ExportError::UnknownSkill { asked, available } => {
                let mut out = "no skill named '".to_owned();
                out.append(asked.as_str());
                out.append("'; this binary ships ");
                out.append(available.as_str());
                out
            },
            ExportError::Archive(error) => error.message().to_owned(),
            ExportError::Traversal(path) => {
                let mut out = "refusing to write skill path '".to_owned();
                out.append(path.as_str());
                out.append("': it escapes the target directory");
                out
            },
            ExportError::CountMismatch { skill, unpacked, claimed } => {
                let mut out = "skill '".to_owned();
                out.append(skill);
                out.append("' unpacked ");
                let found = decimal_of(*unpacked as u64);
                out.append(found.as_str());
                out.append(" files but its metadata claims ");
                let said = decimal_of(*claimed as u64);
                out.append(said.as_str());
                out
            },
            ExportError::Write { path, reason } => {
                let mut out = "failed to write ".to_owned();
                let shown = path_text(path.as_slice());
                out.append(shown.as_str());
                out.append(": ");
                out.append(reason.as_str());
                out
            },
        }
    }
}

/// What a reader is told of why an export did not happen.
pub open spec fn export_trouble_text(trouble: ExportTrouble) -> Seq<char> {
    match trouble {
        ExportTrouble::UnknownSkill { asked, available } => "no skill named '"@ + asked
            + "'; this binary ships "@ + available,
        ExportTrouble::Archive(flaw) => archive::flaw_text(flaw),
        ExportTrouble::Traversal(path) => "refusing to write skill path '"@ + path
            + "': it escapes the target directory"@,
        ExportTrouble::CountMismatch { skill, unpacked, claimed } => "skill '"@ + skill
            + "' unpacked "@ + text::decimal(unpacked as nat)
            + " files but its metadata claims "@ + text::decimal(claimed as nat),
        ExportTrouble::Write { path, reason } => "failed to write "@ + paths::lossy_text(path)
            + ": "@ + reason,
    }
}

// ---------------------------------------------------------------------------
// Where files go
// ---------------------------------------------------------------------------

/// Whether a relative path could land outside the directory it is put under: it
/// starts at the root, or one of its parts goes up.
pub open spec fn escapes(rel: Seq<char>) -> bool {
    (rel.len() > 0 && rel[0] == '/') || text::pieces(rel, '/').contains(".."@)
}

fn goes_outside(rel: &str) -> (res: bool)
    ensures
        res == escapes(rel@),
{
    if starts_with(rel, "/") {
        assert(rel@.len() > 0 && rel@[0] == '/') by {
            reveal_strlit("/");
            assert(rel@.take(1)[0] == "/"@[0]);
        }
        return true;
    }
    assert(!(rel@.len() > 0 && rel@[0] == '/')) by {
        reveal_strlit("/");
        if rel@.len() > 0 && rel@[0] == '/' {
            assert(rel@.take(1) =~= "/"@);
        }
    }
    let parts = split(rel, '/');
    let mut i: usize = 0;
    while i < parts.len()
        invariant
            i <= parts.len(),
            text::texts(parts@) == text::pieces(rel@, '/'),
            forall|j: int| 0 <= j < i ==> (#[trigger] text::texts(parts@)[j]) != ".."@,
        decreases parts.len() - i,
    {
        assert(text::texts(parts@)[i as int] == parts@[i as int]@);
        if same(parts[i].as_str(), "..") {
            return true;
        }
        i += 1;
    }
    false
}

/// The path under a directory.
pub open spec fn under(dir: Seq<u8>, rel: Seq<char>) -> Seq<u8> {
    paths::joined_path(dir, vstd::utf8::encode_utf8(rel))
}

/// Joins `rel` under `dir`, refusing anything that could land outside it.
pub fn safe_join(dir: &[u8], rel: &str) -> (res: Result<Vec<u8>, ExportError>)
    ensures
        match res {
            Ok(path) => !escapes(rel@) && path@ == under(dir@, rel@),
            Err(error) => escapes(rel@) && error.said() == ExportTrouble::Traversal(rel@),
        },
{
    if goes_outside(rel) {
        return Err(ExportError::Traversal(rel.to_owned()));
    }
    Ok(join_path(dir, rel))
}

// ---------------------------------------------------------------------------
// Exporting
// ---------------------------------------------------------------------------

/// A file to write, with the directories above it.
#[derive(Debug)]
pub struct FileWrite {
    pub path: Vec<u8>,
    pub body: Vec<u8>,
}

/// What a list of files says.
pub open spec fn writes_said(writes: Seq<FileWrite>) -> Seq<(Seq<u8>, Seq<u8>)> {
    Seq::new(writes.len(), |i: int| (writes[i].path@, writes[i].body@))
}

/// What is exported of a skill.
#[derive(Debug)]
pub struct Exported {
    pub skill: SkillMeta,
    pub root: Vec<u8>,
    pub files: Vec<Vec<u8>>,
}

/// What an [`Exported`] says.
pub struct ExportedView {
    pub skill: MetaView,
    pub root: Seq<u8>,
    pub files: Seq<Seq<u8>>,
}

impl View for Exported {
    type V = ExportedView;

    open spec fn view(&self) -> ExportedView {
        ExportedView {
            skill: self.skill@,
            root: self.root@,
            files: crate::output::path_list(self.files@),
        }
    }
}

/// What a list of exported skills says.
pub open spec fn exported_said(list: Seq<Exported>) -> Seq<ExportedView> {
    Seq::new(list.len(), |i: int| list[i]@)
}

/// What an export comes to: the files to write in order, and what is answered
/// once they are written.
#[derive(Debug)]
pub struct ExportPlan {
    pub writes: Vec<FileWrite>,
    pub outcome: Result<Vec<Exported>, ExportError>,
}

/// What an [`ExportPlan`] says.
pub struct PlanView {
    pub writes: Seq<(Seq<u8>, Seq<u8>)>,
    pub outcome: Result<Seq<ExportedView>, ExportTrouble>,
}

impl View for ExportPlan {
    type V = PlanView;

    open spec fn view(&self) -> PlanView {
        PlanView {
            writes: writes_said(self.writes@),
            outcome: match self.outcome {
                Ok(list) => Ok(exported_said(list@)),
                Err(error) => Err(error.said()),
            },
        }
    }
}

/// The files of one skill, up to the first path that escapes, and that path.
pub open spec fn gathered(
    entries: Seq<(Seq<char>, Seq<u8>)>,
    name: Seq<char>,
    dir: Seq<u8>,
) -> (Seq<(Seq<u8>, Seq<u8>)>, Option<Seq<char>>)
    decreases entries.len(),
{
    if entries.len() == 0 {
        (Seq::empty(), None)
    } else {
        let (before, fault) = gathered(entries.drop_last(), name, dir);
        let (path, body) = entries.last();
        if fault is Some || !text::begins(path, name + "/"@) {
            (before, fault)
        } else if escapes(path) {
            (before, Some(path))
        } else {
            (before.push((under(dir, path), body)), None)
        }
    }
}

/// The paths of some files.
pub open spec fn targets(writes: Seq<(Seq<u8>, Seq<u8>)>) -> Seq<Seq<u8>> {
    writes.map_values(|write: (Seq<u8>, Seq<u8>)| write.0)
}

/// What exporting some skills comes to. The first one that cannot be exported
/// ends it, with the files before it written.
pub open spec fn planned(
    entries: Seq<(Seq<char>, Seq<u8>)>,
    skills: Seq<MetaView>,
    dir: Seq<u8>,
) -> PlanView
    decreases skills.len(),
{
    if skills.len() == 0 {
        PlanView { writes: Seq::empty(), outcome: Ok(Seq::empty()) }
    } else {
        let before = planned(entries, skills.drop_last(), dir);
        match before.outcome {
            Err(_) => before,
            Ok(done) => {
                let skill = skills.last();
                let (files, fault) = gathered(entries, skill.name, dir);
                PlanView {
                    writes: before.writes + files,
                    outcome: match fault {
                        Some(path) => Err(ExportTrouble::Traversal(path)),
                        None => if files.len() != skill.files {
                            Err(
                                ExportTrouble::CountMismatch {
                                    skill: skill.name,
                                    unpacked: files.len() as int,
                                    claimed: skill.files as int,
                                },
                            )
                        } else {
                            Ok(
                                done.push(
                                    ExportedView {
                                        skill,
                                        root: under(dir, skill.name),
                                        files: targets(files),
                                    },
                                ),
                            )
                        },
                    },
                }
            },
        }
    }
}

/// The skills an export is about.
pub open spec fn wanted(skills: Seq<MetaView>, only: Option<Seq<char>>) -> Result<
    Seq<MetaView>,
    ExportTrouble,
> {
    match only {
        None => Ok(skills),
        Some(name) => if named_from(skills, name, 0) < skills.len() {
            Ok(seq![skills[named_from(skills, name, 0)]])
        } else {
            Err(
                ExportTrouble::UnknownSkill {
                    asked: name,
                    available: text::joined(skill_names(skills), ", "@),
                },
            )
        },
    }
}

/// An export that writes nothing.
pub open spec fn refused(trouble: ExportTrouble) -> PlanView {
    PlanView { writes: Seq::empty(), outcome: Err(trouble) }
}

/// What an export comes to, given what the archive holds. A skill that is not
/// there is refused before the archive is looked at.
pub open spec fn export_plan(
    skills: Seq<MetaView>,
    contents: Result<Seq<(Seq<char>, Seq<u8>)>, Flaw>,
    dir: Seq<u8>,
    only: Option<Seq<char>>,
) -> PlanView {
    match wanted(skills, only) {
        Err(trouble) => refused(trouble),
        Ok(wanted) => match contents {
            Err(flaw) => refused(ExportTrouble::Archive(flaw)),
            Ok(entries) => planned(entries, wanted, dir),
        },
    }
}

/// The skills compiled into one engine binary.
#[derive(Debug, Clone, Copy)]
pub struct Embedded {
    skills: &'static [SkillMeta],
    archive: &'static [u8],
}

fn gather(entries: &Vec<(String, Vec<u8>)>, name: &str, dir: &[u8]) -> (res: (
    Vec<FileWrite>,
    Option<ExportError>,
))
    ensures
        writes_said(res.0@) == gathered(archive::entries_said(entries@), name@, dir@).0,
        match res.1 {
            Some(error) => gathered(archive::entries_said(entries@), name@, dir@).1 is Some
                && error.said() == ExportTrouble::Traversal(
                gathered(archive::entries_said(entries@), name@, dir@).1->0,
            ),
            None => gathered(archive::entries_said(entries@), name@, dir@).1 is None,
        },
{
    let ghost all = archive::entries_said(entries@);
    let mut prefix = name.to_owned();
    prefix.append("/");
    let mut writes: Vec<FileWrite> = Vec::new();
    let mut fault: Option<ExportError> = None;
    let mut i: usize = 0;
    assert(writes_said(writes@) =~= gathered(all.take(0), name@, dir@).0);
    while i < entries.len()
        invariant
            i <= entries.len(),
            all == archive::entries_said(entries@),
            prefix@ == name@ + "/"@,
            writes_said(writes@) == gathered(all.take(i as int), name@, dir@).0,
            match fault {
                Some(error) => gathered(all.take(i as int), name@, dir@).1 is Some && error.said()
                    == ExportTrouble::Traversal(gathered(all.take(i as int), name@, dir@).1->0),
                None => gathered(all.take(i as int), name@, dir@).1 is None,
            },
        decreases entries.len() - i,
    {
        let ghost former = writes@;
        assert(all.take(i + 1).drop_last() =~= all.take(i as int));
        assert(all.take(i + 1).last() == all[i as int]);
        let path = entries[i].0.as_str();
        if fault.is_none() && starts_with(path, prefix.as_str()) {
            match safe_join(dir, path) {
                Ok(target) => {
                    let ghost pair = (target@, entries@[i as int].1@);
                    writes.push(
                        FileWrite { path: target, body: copy_bytes(entries[i].1.as_slice()) },
                    );
                    assert(writes_said(writes@) =~= writes_said(former).push(pair));
                },
                Err(error) => {
                    fault = Some(error);
                },
            }
        }
        i += 1;
    }
    assert(all.take(all.len() as int) =~= all);
    (writes, fault)
}

fn copy_targets(writes: &Vec<FileWrite>) -> (res: Vec<Vec<u8>>)
    ensures
        crate::output::path_list(res@) == targets(writes_said(writes@)),
{
    let mut out: Vec<Vec<u8>> = Vec::new();
    let mut i: usize = 0;
    while i < writes.len()
        invariant
            i <= writes.len(),
            out@.len() == i,
            forall|j: int| 0 <= j < i ==> (#[trigger] out@[j])@ == writes@[j].path@,
        decreases writes.len() - i,
    {
        out.push(copy_bytes(writes[i].path.as_slice()));
        i += 1;
    }
    assert(crate::output::path_list(out@) =~= targets(writes_said(writes@)));
    out
}

fn append_writes(out: &mut Vec<FileWrite>, more: Vec<FileWrite>)
    ensures
        writes_said(final(out)@) == writes_said(old(out)@) + writes_said(more@),
{
    let ghost head = writes_said(out@);
    let ghost all = writes_said(more@);
    let mut i: usize = 0;
    assert(writes_said(out@) =~= head + all.take(0));
    while i < more.len()
        invariant
            i <= more.len(),
            all == writes_said(more@),
            writes_said(out@) == head + all.take(i as int),
        decreases more.len() - i,
    {
        let ghost former = out@;
        out.push(
            FileWrite {
                path: copy_bytes(more[i].path.as_slice()),
                body: copy_bytes(more[i].body.as_slice()),
            },
        );
        assert(writes_said(out@) =~= writes_said(former).push(all[i as int]));
        assert(head + all.take(i + 1) =~= (head + all.take(i as int)).push(all[i as int]));
        i += 1;
    }
    assert(all.take(all.len() as int) =~= all);
}

/// What exporting some skills comes to.
fn plan_skills(entries: &Vec<(String, Vec<u8>)>, skills: &Vec<SkillMeta>, dir: &[u8]) -> (res:
    ExportPlan)
    ensures
        res@ == planned(archive::entries_said(entries@), metas_said(skills@), dir@),
{
    let ghost held = archive::entries_said(entries@);
    let ghost all = metas_said(skills@);
    let mut writes: Vec<FileWrite> = Vec::new();
    let mut done: Vec<Exported> = Vec::new();
    let mut failed: Option<ExportError> = None;
    let mut i: usize = 0;
    assert(writes_said(writes@) =~= planned(held, all.take(0), dir@).writes);
    assert(exported_said(done@) =~= Seq::empty());
    while i < skills.len()
        invariant
            i <= skills.len(),
            held == archive::entries_said(entries@),
            all == metas_said(skills@),
            writes_said(writes@) == planned(held, all.take(i as int), dir@).writes,
            match failed {
                Some(error) => planned(held, all.take(i as int), dir@).outcome == Err::<
                    Seq<ExportedView>,
                    ExportTrouble,
                >(error.said()),
                None => planned(held, all.take(i as int), dir@).outcome == Ok::<
                    Seq<ExportedView>,
                    ExportTrouble,
                >(exported_said(done@)),
            },
        decreases skills.len() - i,
    {
        assert(all.take(i + 1).drop_last() =~= all.take(i as int));
        assert(all.take(i + 1).last() == all[i as int]);
        assert(all[i as int] == skills@[i as int]@);
        if failed.is_none() {
            let ghost former = done@;
            let skill = skills[i];
            let (files, fault) = gather(entries, skill.name, dir);
            assert(writes_said(files@).len() == files@.len());
            match fault {
                Some(error) => {
                    failed = Some(error);
                },
                None => {
                    if files.len() != skill.files {
                        failed = Some(
                            ExportError::CountMismatch {
                                skill: skill.name,
                                unpacked: files.len(),
                                claimed: skill.files,
                            },
                        );
                    } else {
                        let item = Exported {
                            skill,
                            root: join_path(dir, skill.name),
                            files: copy_targets(&files),
                        };
                        let ghost said = item@;
                        done.push(item);
                        assert(exported_said(done@) =~= exported_said(former).push(said));
                    }
                },
            }
            append_writes(&mut writes, files);
        }
        i += 1;
    }
    assert(all.take(all.len() as int) =~= all);
    match failed {
        Some(error) => ExportPlan { writes, outcome: Err(error) },
        None => ExportPlan { writes, outcome: Ok(done) },
    }
}

impl Embedded {
    /// The skills.
    pub closed spec fn listed(&self) -> Seq<MetaView> {
        metas_said(self.skills@)
    }

    /// The archive they are packed in.
    pub closed spec fn packed(&self) -> Seq<u8> {
        self.archive@
    }

    pub fn new(skills: &'static [SkillMeta], archive: &'static [u8]) -> (res: Self)
        ensures
            res.listed() == metas_said(skills@),
            res.packed() == archive@,
    {
        Embedded { skills, archive }
    }

    /// Every skill this binary ships.
    pub fn all(&self) -> (res: &'static [SkillMeta])
        ensures
            metas_said(res@) == self.listed(),
    {
        self.skills
    }

    pub fn by_name(&self, name: &str) -> (res: Option<&'static SkillMeta>)
        ensures
            match res {
                Some(skill) => named_from(self.listed(), name@, 0) < self.listed().len() && skill@
                    == self.listed()[named_from(self.listed(), name@, 0)],
                None => named_from(self.listed(), name@, 0) >= self.listed().len(),
            },
    {
        let mut i: usize = 0;
        while i < self.skills.len()
            invariant
                i <= self.skills@.len(),
                named_from(self.listed(), name@, 0) == named_from(self.listed(), name@, i as int),
            decreases self.skills@.len() - i,
        {
            assert(self.listed()[i as int] == self.skills@[i as int]@);
            if same(self.skills[i].name, name) {
                return Some(&self.skills[i]);
            }
            i += 1;
        }
        None
    }

    fn names(&self) -> (res: Vec<String>)
        ensures
            text::texts(res@) == skill_names(self.listed()),
    {
        let mut out: Vec<String> = Vec::new();
        let mut i: usize = 0;
        while i < self.skills.len()
            invariant
                i <= self.skills@.len(),
                out@.len() == i,
                forall|j: int| 0 <= j < i ==> (#[trigger] out@[j])@ == self.skills@[j].name@,
            decreases self.skills@.len() - i,
        {
            out.push(self.skills[i].name.to_owned());
            i += 1;
        }
        assert(text::texts(out@) =~= skill_names(self.listed()));
        out
    }

    /// What exporting comes to, given what the archive holds.
    pub fn export_entries(
        &self,
        entries: Result<Vec<(String, Vec<u8>)>, ArchiveError>,
        dir: &[u8],
        only: Option<&str>,
    ) -> (res: ExportPlan)
        ensures
            res@ == export_plan(
                self.listed(),
                archive::read_said(entries),
                dir@,
                crate::output::opt_str(only),
            ),
    {
        let mut skills: Vec<SkillMeta> = Vec::new();
        let none: Vec<FileWrite> = Vec::new();
        assert(writes_said(none@) =~= Seq::empty());
        match only {
            Some(name) => match self.by_name(name) {
                Some(skill) => {
                    skills.push(*skill);
                    assert(metas_said(skills@) =~= seq![skill@]);
                },
                None => {
                    let list = self.names();
                    return ExportPlan {
                        writes: none,
                        outcome: Err(
                            ExportError::UnknownSkill {
                                asked: name.to_owned(),
                                available: join(list.as_slice(), ", "),
                            },
                        ),
                    };
                },
            },
            None => {
                let mut i: usize = 0;
                while i < self.skills.len()
                    invariant
                        i <= self.skills@.len(),
                        skills@ == self.skills@.take(i as int),
                    decreases self.skills@.len() - i,
                {
                    skills.push(self.skills[i]);
                    assert(skills@ =~= self.skills@.take(i + 1));
                    i += 1;
                }
                assert(self.skills@.take(self.skills@.len() as int) =~= self.skills@);
                assert(metas_said(skills@) =~= self.listed());
            },
        }
        match entries {
            Ok(entries) => plan_skills(&entries, &skills, dir),
            Err(error) => ExportPlan { writes: none, outcome: Err(ExportError::Archive(error)) },
        }
    }

    /// What it takes to unpack `only`, or every skill, into `dir`, one
    /// subdirectory per skill.
    pub fn export(&self, dir: &[u8], only: Option<&str>) -> (res: ExportPlan)
        ensures
            res@ == export_plan(
                self.listed(),
                archive::contents(self.packed()),
                dir@,
                crate::output::opt_str(only),
            ),
    {
        self.export_entries(read(self.archive), dir, only)
    }
}

// ---------------------------------------------------------------------------
// Laws
// ---------------------------------------------------------------------------

/// A relative path is encoded without a leading slash.
proof fn stays_relative(rel: Seq<char>)
    requires
        !escapes(rel),
    ensures
        vstd::utf8::encode_utf8(rel).len() > 0 ==> vstd::utf8::encode_utf8(rel)[0] != 0x2f,
{
    let bytes = vstd::utf8::encode_utf8(rel);
    if rel.len() > 0 && bytes.len() > 0 && bytes[0] == 0x2f {
        vstd::utf8::encode_utf8_first_scalar(rel);
        assert(vstd::utf8::codepoint_width_1(0x2f) == 0x2f) by (bit_vector);
        vstd::utf8::char_u32_cast(rel[0], 0x2f);
        assert(rel[0] == '/');
    }
}

/// No file lands outside: every file of a skill goes to a path that begins with
/// the directory, and whose relative part neither starts at the root nor goes up.
pub proof fn files_stay_inside(
    entries: Seq<(Seq<char>, Seq<u8>)>,
    name: Seq<char>,
    dir: Seq<u8>,
    at: int,
)
    requires
        0 <= at < gathered(entries, name, dir).0.len(),
    ensures
        exists|i: int|
            0 <= i < entries.len() && !escapes((#[trigger] entries[i]).0) && text::begins(
                entries[i].0,
                name + "/"@,
            ) && gathered(entries, name, dir).0[at] == (under(dir, entries[i].0), entries[i].1),
        dir.is_prefix_of(gathered(entries, name, dir).0[at].0),
    decreases entries.len(),
{
    if entries.len() > 0 {
        let less = entries.drop_last();
        let before = gathered(less, name, dir).0;
        let all = gathered(entries, name, dir).0;
        if at < before.len() {
            files_stay_inside(less, name, dir, at);
            let i = choose|i: int|
                0 <= i < less.len() && !escapes((#[trigger] less[i]).0) && text::begins(
                    less[i].0,
                    name + "/"@,
                ) && before[at] == (under(dir, less[i].0), less[i].1);
            assert(entries[i] == less[i]);
            assert(all[at] == before[at]);
        } else {
            assert(entries[entries.len() - 1] == entries.last());
            stays_relative(entries.last().0);
            let path = under(dir, entries.last().0);
            assert(path.subrange(0, dir.len() as int) =~= dir);
        }
    }
}

/// Every skill that is exported has as many files as it claims.
pub proof fn exported_counts_agree(
    entries: Seq<(Seq<char>, Seq<u8>)>,
    skills: Seq<MetaView>,
    dir: Seq<u8>,
    at: int,
)
    requires
        planned(entries, skills, dir).outcome is Ok,
        0 <= at < skills.len(),
    ensures
        planned(entries, skills, dir).outcome->Ok_0.len() == skills.len(),
        planned(entries, skills, dir).outcome->Ok_0[at].skill == skills[at],
        planned(entries, skills, dir).outcome->Ok_0[at].files.len() == skills[at].files,
    decreases skills.len(),
{
    let less = skills.drop_last();
    if at < skills.len() - 1 {
        exported_counts_agree(entries, less, dir, at);
    } else if less.len() > 0 {
        exported_counts_agree(entries, less, dir, 0);
    }
}

/// A binary that ships nothing exports nothing, and that is no error.
pub proof fn nothing_exports_to_nothing(entries: Seq<(Seq<char>, Seq<u8>)>, dir: Seq<u8>)
    ensures
        export_plan(
            Seq::empty(),
            Ok::<Seq<(Seq<char>, Seq<u8>)>, Flaw>(entries),
            dir,
            None,
        ) == (PlanView { writes: Seq::empty(), outcome: Ok(Seq::empty()) }),
{
}

} // verus!
