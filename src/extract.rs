use vstd::prelude::*;

use crate::entry_path::{entry_parent, entry_target, name_issue, named, parts, resolve_entry};
use crate::error::{ArchiveError, FormatIssue};

verus! {

/// What an archive entry is.
#[derive(Clone, Copy, Debug, PartialEq, Eq, Structural)]
pub enum EntryKind {
    File,
    Directory,
    /// Links and other special entries; they are passed over.
    Other,
}

/// Where an extraction stands on its forward-only input.
#[derive(Clone, Copy, Debug, PartialEq, Eq, Structural)]
pub enum Phase {
    /// The next entry header is to be read.
    SeekingEntry,
    /// An entry is live: its body has to be consumed before the next header.
    HasEntry,
    /// The input holds no more entries; terminal.
    Done,
    /// The extraction failed; terminal.
    Failed(ArchiveError),
}

/// What the driver of an extraction reports after doing the work it was asked for.
#[derive(Debug, PartialEq, Eq)]
pub enum ExtractEvent {
    /// The next entry header was read.
    EntryFound { name: String, kind: EntryKind },
    /// The input holds no further entry.
    EndOfEntries,
    /// The live entry's body was consumed and the rest of the input handed back.
    EntryFinished,
    /// Reading the input or writing the destination failed.
    Failure(ArchiveError),
}

/// The work an extraction asks its driver to do next.
#[derive(Debug, PartialEq, Eq)]
pub enum ExtractAction {
    /// Read the next entry header from the input.
    ReadHeader,
    /// Create the directory `path` with its missing ancestors, then finish the entry.
    CreateDir { path: String },
    /// Create `parent` with its missing ancestors, create or truncate the file
    /// `path`, copy the entry's body into it, then finish the entry.
    WriteFile { parent: String, path: String },
    /// Consume the entry's body without writing it, then finish the entry.
    SkipEntry,
    /// The extraction is complete.
    Finish,
    /// The extraction failed with this error.
    Abort(ArchiveError),
}

/// The phase an extraction moves to from `phase` on `event`, on a host whose
/// path separator is `sep`.
pub open spec fn next_phase(phase: Phase, event: ExtractEvent, sep: char) -> Phase {
    match phase {
        Phase::Done => Phase::Done,
        Phase::Failed(e) => Phase::Failed(e),
        Phase::SeekingEntry => match event {
            ExtractEvent::EntryFound { name, kind } => match entry_issue(name@, kind, sep) {
                Some(issue) => Phase::Failed(ArchiveError::Format(issue)),
                None => Phase::HasEntry,
            },
            ExtractEvent::EndOfEntries => Phase::Done,
            ExtractEvent::EntryFinished => Phase::Failed(ArchiveError::OutOfOrder),
            ExtractEvent::Failure(e) => Phase::Failed(e),
        },
        Phase::HasEntry => match event {
            ExtractEvent::EntryFinished => Phase::SeekingEntry,
            ExtractEvent::Failure(e) => Phase::Failed(e),
            _ => Phase::Failed(ArchiveError::OutOfOrder),
        },
    }
}

/// Why an entry named `name` of kind `kind` cannot be extracted on a host
/// whose path separator is `sep`, if it cannot.
pub open spec fn entry_issue(name: Seq<char>, kind: EntryKind, sep: char) -> Option<FormatIssue> {
    if kind == EntryKind::Other {
        None
    } else if name_issue(name, sep) is Some {
        name_issue(name, sep)
    } else if kind == EntryKind::File && named(parts(name)).len() == 0 {
        Some(FormatIssue::MissingFileName)
    } else {
        None
    }
}

/// Whether `action` is what an extraction under `root`, on a host whose path
/// separator is `sep`, asks for when it moves from `phase` on `event`.
pub open spec fn action_for(
    root: Seq<char>,
    sep: char,
    phase: Phase,
    event: ExtractEvent,
    action: ExtractAction,
) -> bool {
    match next_phase(phase, event, sep) {
        Phase::Done => action is Finish,
        Phase::Failed(e) => action == ExtractAction::Abort(e),
        Phase::SeekingEntry => action is ReadHeader,
        Phase::HasEntry => match event {
            ExtractEvent::EntryFound { name, kind } => match kind {
                EntryKind::Directory => action matches ExtractAction::CreateDir { path } && path@
                    == entry_target(root, name@),
                EntryKind::File => action matches ExtractAction::WriteFile { parent, path } && path@
                    == entry_target(root, name@) && parent@ == entry_parent(root, name@),
                EntryKind::Other => action is SkipEntry,
            },
            _ => false,
        },
    }
}

/// One extraction into a destination root: it hands out work, one step at a
/// time, to a driver that reads the archive forward and touches the filesystem.
/// Exactly one entry is live at a time, and the next header is read only once
/// the live entry is finished. Extraction is best-effort: what was written
/// before a failure stays in place; a caller that needs all or nothing
/// extracts into a fresh directory and moves it into place on success.
pub struct Extraction {
    root: String,
    sep: char,
    phase: Phase,
}

impl Extraction {
    pub closed spec fn root(&self) -> Seq<char> {
        self.root@
    }

    pub closed spec fn sep(&self) -> char {
        self.sep
    }

    pub closed spec fn phase_of(&self) -> Phase {
        self.phase
    }

    /// Starts an extraction under `root`, which the driver has made absolute
    /// once; the first work to do is to read a header.
    pub fn new(root: String, sep: char) -> (r: Extraction)
        ensures
            r.root() == root@,
            r.sep() == sep,
            r.phase_of() == Phase::SeekingEntry,
    {
        Extraction { root, sep, phase: Phase::SeekingEntry }
    }

    pub fn phase(&self) -> (r: Phase)
        ensures
            r == self.phase_of(),
    {
        self.phase
    }

    /// Takes the driver's report of the work last asked for, moves on, and
    /// says what to do next.
    pub fn step(&mut self, event: ExtractEvent) -> (action: ExtractAction)
        ensures
            final(self).root() == old(self).root(),
            final(self).sep() == old(self).sep(),
            final(self).phase_of() == next_phase(old(self).phase_of(), event, old(self).sep()),
            action_for(old(self).root(), old(self).sep(), old(self).phase_of(), event, action),
    {
        match self.phase {
            Phase::Done => ExtractAction::Finish,
            Phase::Failed(e) => ExtractAction::Abort(e),
            Phase::SeekingEntry => match event {
                ExtractEvent::EntryFound { name, kind } => self.enter(name, kind),
                ExtractEvent::EndOfEntries => {
                    self.phase = Phase::Done;
                    ExtractAction::Finish
                },
                ExtractEvent::EntryFinished => self.fail(ArchiveError::OutOfOrder),
                ExtractEvent::Failure(e) => self.fail(e),
            },
            Phase::HasEntry => match event {
                ExtractEvent::EntryFinished => {
                    self.phase = Phase::SeekingEntry;
                    ExtractAction::ReadHeader
                },
                ExtractEvent::Failure(e) => self.fail(e),
                _ => self.fail(ArchiveError::OutOfOrder),
            },
        }
    }

    fn fail(&mut self, e: ArchiveError) -> (action: ExtractAction)
        ensures
            final(self).root() == old(self).root(),
            final(self).sep() == old(self).sep(),
            final(self).phase_of() == Phase::Failed(e),
            action == ExtractAction::Abort(e),
    {
        self.phase = Phase::Failed(e);
        ExtractAction::Abort(e)
    }

    fn enter(&mut self, name: String, kind: EntryKind) -> (action: ExtractAction)
        requires
            old(self).phase_of() == Phase::SeekingEntry,
        ensures
            final(self).root() == old(self).root(),
            final(self).sep() == old(self).sep(),
            final(self).phase_of() == next_phase(
                old(self).phase_of(),
                ExtractEvent::EntryFound { name, kind },
                old(self).sep(),
            ),
            action_for(
                old(self).root(),
                old(self).sep(),
                old(self).phase_of(),
                ExtractEvent::EntryFound { name, kind },
                action,
            ),
    {
        if kind == EntryKind::Other {
            self.phase = Phase::HasEntry;
            return ExtractAction::SkipEntry;
        }
        match resolve_entry(self.root.as_str(), name.as_str(), self.sep) {
            Err(e) => self.fail(e),
            Ok(res) => {
                if kind == EntryKind::Directory {
                    self.phase = Phase::HasEntry;
                    ExtractAction::CreateDir { path: res.target }
                } else if res.has_file_name {
                    self.phase = Phase::HasEntry;
                    ExtractAction::WriteFile { parent: res.parent, path: res.target }
                } else {
                    self.fail(ArchiveError::Format(FormatIssue::MissingFileName))
                }
            },
        }
    }
}

/// The phase reached from `phase` after the driver reports `events` in order,
/// on a host whose path separator is `sep`.
pub open spec fn run(phase: Phase, events: Seq<ExtractEvent>, sep: char) -> Phase
    decreases events.len(),
{
    if events.len() == 0 {
        phase
    } else {
        next_phase(run(phase, events.drop_last(), sep), events.last(), sep)
    }
}

/// What a driver reports for `headers` read one after the other, each entry's
/// body consumed before the next header is read.
pub open spec fn entry_rounds(headers: Seq<ExtractEvent>) -> Seq<ExtractEvent>
    decreases headers.len(),
{
    if headers.len() == 0 {
        Seq::empty()
    } else {
        entry_rounds(headers.drop_last()) + seq![headers.last(), ExtractEvent::EntryFinished]
    }
}

/// A header for an entry that can be extracted on a host whose path separator is `sep`.
pub open spec fn acceptable(event: ExtractEvent, sep: char) -> bool {
    event matches ExtractEvent::EntryFound { name, kind } && entry_issue(name@, kind, sep) is None
}

/// An extraction needs no entry count up front: after any number of
/// acceptable entries it is seeking the next header again, and the end of the
/// input then brings it to `Done`.
pub proof fn lemma_end_of_entries_reaches_done(headers: Seq<ExtractEvent>, sep: char)
    requires
        forall|k: int| 0 <= k < headers.len() ==> acceptable(#[trigger] headers[k], sep),
    ensures
        run(Phase::SeekingEntry, entry_rounds(headers), sep) == Phase::SeekingEntry,
        run(Phase::SeekingEntry, entry_rounds(headers).push(ExtractEvent::EndOfEntries), sep)
            == Phase::Done,
    decreases headers.len(),
{
    if headers.len() > 0 {
        let hs = headers.drop_last();
        assert forall|k: int| 0 <= k < hs.len() implies acceptable(#[trigger] hs[k], sep) by {
            assert(hs[k] == headers[k]);
        }
        lemma_end_of_entries_reaches_done(hs, sep);
        let rs = entry_rounds(headers);
        let h = headers.last();
        assert(acceptable(headers[headers.len() - 1], sep));
        assert(rs.drop_last() =~= entry_rounds(hs).push(h));
        assert(rs.drop_last().drop_last() =~= entry_rounds(hs));
        assert(rs.last() == ExtractEvent::EntryFinished);
        assert(rs.drop_last().last() == h);
        assert(run(Phase::SeekingEntry, rs.drop_last(), sep) == Phase::HasEntry);
    }
    let rs = entry_rounds(headers);
    assert(rs.push(ExtractEvent::EndOfEntries).drop_last() =~= rs);
    assert(run(Phase::SeekingEntry, rs, sep) == Phase::SeekingEntry);
}

/// `Done` and `Failed` are terminal: no report moves an extraction out of them.
pub proof fn lemma_terminal_phases(phase: Phase, events: Seq<ExtractEvent>, sep: char)
    requires
        phase is Done || phase is Failed,
    ensures
        run(phase, events, sep) == phase,
    decreases events.len(),
{
    if events.len() > 0 {
        lemma_terminal_phases(phase, events.drop_last(), sep);
    }
}

/// Whether two actions ask for the same work.
pub open spec fn same_work(a: ExtractAction, b: ExtractAction) -> bool {
    match (a, b) {
        (ExtractAction::ReadHeader, ExtractAction::ReadHeader) => true,
        (ExtractAction::CreateDir { path: p }, ExtractAction::CreateDir { path: q }) => p@ == q@,
        (
            ExtractAction::WriteFile { parent: p, path: f },
            ExtractAction::WriteFile { parent: q, path: g },
        ) => p@ == q@ && f@ == g@,
        (ExtractAction::SkipEntry, ExtractAction::SkipEntry) => true,
        (ExtractAction::Finish, ExtractAction::Finish) => true,
        (ExtractAction::Abort(e), ExtractAction::Abort(f)) => e == f,
        _ => false,
    }
}

/// The work asked for an entry depends on the destination root, the host's
/// separator and the entry's header alone, not on what was extracted before or on what the
/// destination holds: extracting the same archive into the same root again
/// asks for the same directories and files, each created with its missing
/// ancestors or overwritten whole, and so leaves the same tree.
pub proof fn lemma_same_entry_same_work(
    root: Seq<char>,
    sep: char,
    event: ExtractEvent,
    a: ExtractAction,
    b: ExtractAction,
)
    requires
        action_for(root, sep, Phase::SeekingEntry, event, a),
        action_for(root, sep, Phase::SeekingEntry, event, b),
    ensures
        same_work(a, b),
{
}

} // verus!
