//! The rules of file resolution that need no file system: every file is
//! handed out once however often it is reached, how an interface named by
//! `use` is spelled as a file, and what a `use` that finds nothing reports.
use vstd::prelude::*;
use crate::diag::{Diag, DiagCtx, DiagnosticView, LabelColor, Level};
use crate::parse::{join, strings_view};
use crate::sources::FileId;
use crate::span::Span;
use crate::text::push_str;

verus! {

/// The files handed out so far in one compilation; nothing occurs twice.
#[derive(Debug)]
pub struct SeenFiles {
    ids: Vec<FileId>,
}

impl View for SeenFiles {
    type V = Set<FileId>;

    closed spec fn view(&self) -> Set<FileId> {
        self.ids@.to_set()
    }
}

impl SeenFiles {
    #[verifier::type_invariant]
    spec fn no_repeats(self) -> bool {
        self.ids@.no_duplicates()
    }

    /// Nothing handed out yet.
    pub fn new() -> (s: SeenFiles)
        ensures
            s@ == Set::<FileId>::empty(),
    {
        let s = SeenFiles { ids: Vec::new() };
        proof {
            assert(s.ids@.to_set() =~= Set::<FileId>::empty());
        }
        s
    }

    /// Whether `id` was handed out already.
    pub fn contains(&self, id: FileId) -> (r: bool)
        ensures
            r == self@.contains(id),
    {
        let mut i: usize = 0;
        while i < self.ids.len()
            invariant
                i <= self.ids@.len(),
                forall|j: int| 0 <= j < i ==> self.ids@[j] != id,
            decreases self.ids@.len() - i,
        {
            if self.ids[i] == id {
                proof {
                    assert(self.ids@.contains(id));
                }
                return true;
            }
            i += 1;
        }
        proof {
            assert(!self.ids@.contains(id));
        }
        false
    }

    /// Records every file of `files` in order, handing out those whose id
    /// was not handed out before, the first time it comes.
    pub fn take_new(&mut self, files: Vec<File>) -> (r: Vec<File>)
        ensures
            r@ == handed_out(old(self)@, files@),
            final(self)@ == old(self)@.union(ids_of(files@)),
    {
        let ghost all = files@;
        let ghost start = self@;
        let mut out: Vec<File> = Vec::new();
        let mut i: usize = 0;
        proof {
            assert(all.skip(0) =~= all);
            assert(ids_of(all.take(0)) =~= Set::<FileId>::empty());
            assert(self@.union(ids_of(all.take(0))) =~= self@);
            assert(out@ + handed_out(self@, all.skip(0)) =~= handed_out(self@, all));
        }
        while i < files.len()
            invariant
                all == files@,
                i <= all.len(),
                self@ == start.union(ids_of(all.take(i as int))),
                handed_out(start, all) == out@ + handed_out(self@, all.skip(i as int)),
            decreases all.len() - i,
        {
            let f = files[i];
            let id = f.id();
            let ghost before = self@;
            let ghost outb = out@;
            let fresh = self.insert(id);
            proof {
                let t = all.skip(i as int);
                assert(t[0] == f);
                assert(t.skip(1) =~= all.skip(i + 1));
                assert(handed_out(before, t) == if before.contains(id) {
                    handed_out(before, all.skip(i + 1))
                } else {
                    seq![f] + handed_out(before.insert(id), all.skip(i + 1))
                });
                if !fresh {
                    assert(self@ =~= before);
                }
            }
            if fresh {
                out.push(f);
                proof {
                    assert(out@ + handed_out(self@, all.skip(i + 1)) =~= outb + (seq![f] + handed_out(
                        before.insert(id),
                        all.skip(i + 1),
                    )));
                }
            }
            proof {
                assert(ids_of(all.take(i + 1)) =~= ids_of(all.take(i as int)).insert(id)) by {
                    assert forall|x: FileId| #[trigger] ids_of(all.take(i + 1)).contains(x) == ids_of(
                        all.take(i as int),
                    ).insert(id).contains(x) by {
                        if ids_of(all.take(i + 1)).contains(x) {
                            let k = choose|k: int| 0 <= k < i + 1 && #[trigger] all.take(i + 1)[k].file_id() == x;
                            if k < i {
                                assert(all.take(i as int)[k].file_id() == x);
                            }
                        }
                        if ids_of(all.take(i as int)).contains(x) {
                            let k = choose|k: int| 0 <= k < i && #[trigger] all.take(i as int)[k].file_id() == x;
                            assert(all.take(i + 1)[k].file_id() == x);
                        }
                        if x == id {
                            assert(all.take(i + 1)[i as int].file_id() == x);
                        }
                    }
                }
                assert(start.union(ids_of(all.take(i + 1))) =~= start.union(ids_of(all.take(i as int))).insert(id));
            }
            i += 1;
        }
        proof {
            assert(all.take(all.len() as int) =~= all);
            assert(all.skip(all.len() as int) =~= Seq::<File>::empty());
            assert(out@ + Seq::<File>::empty() =~= out@);
        }
        out
    }

    /// Records `id` as handed out; true exactly when it was not already, so
    /// a file reached a second time is skipped.
    pub fn insert(&mut self, id: FileId) -> (r: bool)
        ensures
            r == !old(self)@.contains(id),
            final(self)@ == old(self)@.insert(id),
    {
        if self.contains(id) {
            proof {
                assert(self@.insert(id) =~= self@);
            }
            return false;
        }
        proof {
            use_type_invariant(&*self);
        }
        let mut ids = Vec::new();
        std::mem::swap(&mut ids, &mut self.ids);
        let ghost before = ids@;
        ids.push(id);
        proof {
            assert(ids@ == before.push(id));
            assert(ids@.no_duplicates()) by {
                assert forall|a: int, b: int| 0 <= a < b < ids@.len() implies ids@[a] != ids@[b] by {
                    if b == ids@.len() - 1 {
                        assert(before.contains(before[a]));
                    }
                }
            }
            assert(ids@.to_set() =~= before.to_set().insert(id)) by {
                assert forall|x: FileId| ids@.to_set().contains(x) == before.to_set().insert(id).contains(x) by {
                    if before.contains(x) {
                        let k = choose|k: int| 0 <= k < before.len() && before[k] == x;
                        assert(ids@[k] == x);
                    }
                    if x == id {
                        assert(ids@[ids@.len() - 1] == x);
                    }
                    if ids@.contains(x) && x != id {
                        let k = choose|k: int| 0 <= k < ids@.len() && ids@[k] == x;
                        assert(before[k] == x);
                    }
                }
            }
        }
        self.ids = ids;
        true
    }
}


/// A classified input file.
#[derive(Debug, Clone, Copy, Hash, PartialEq, Eq, Structural)]
pub enum File {
    Program(FileId),
    Interface(FileId),
}

impl File {
    pub open spec fn file_id(self) -> FileId {
        match self {
            File::Program(id) => id,
            File::Interface(id) => id,
        }
    }

    pub fn id(&self) -> (r: FileId)
        ensures
            r == self.file_id(),
    {
        match self {
            File::Program(id) => *id,
            File::Interface(id) => *id,
        }
    }
}

/// The files of `files` that are handed out, in order, when `seen` were
/// handed out before: each file whose id was not handed out yet.
pub open spec fn handed_out(seen: Set<FileId>, files: Seq<File>) -> Seq<File>
    decreases files.len(),
{
    if files.len() == 0 {
        Seq::empty()
    } else if seen.contains(files[0].file_id()) {
        handed_out(seen, files.skip(1))
    } else {
        seq![files[0]] + handed_out(seen.insert(files[0].file_id()), files.skip(1))
    }
}

/// The ids of `files`.
pub open spec fn ids_of(files: Seq<File>) -> Set<FileId> {
    Set::new(|id: FileId| exists|i: int| 0 <= i < files.len() && #[trigger] files[i].file_id() == id)
}

/// A file named again, after it or a file with its id was named or handed
/// out, is skipped: naming it a second time hands out exactly what naming it
/// once does, at whichever entry point it is named.
pub proof fn lemma_repeat_is_skipped(seen: Set<FileId>, files: Seq<File>, f: File)
    requires
        seen.contains(f.file_id()) || exists|i: int| 0 <= i < files.len() && #[trigger] files[i].file_id()
            == f.file_id(),
    ensures
        handed_out(seen, files.push(f)) == handed_out(seen, files),
    decreases files.len(),
{
    let all = files.push(f);
    if files.len() == 0 {
        assert(all.skip(1) =~= Seq::<File>::empty());
        assert(handed_out(seen, all.skip(1)) =~= Seq::<File>::empty());
    } else {
        assert(all[0] == files[0]);
        assert(all.skip(1) =~= files.skip(1).push(f));
        let rest = files.skip(1);
        if seen.contains(files[0].file_id()) {
            if !seen.contains(f.file_id()) {
                let i = choose|i: int| 0 <= i < files.len() && #[trigger] files[i].file_id() == f.file_id();
                assert(i != 0);
                assert(rest[i - 1].file_id() == f.file_id());
            }
            lemma_repeat_is_skipped(seen, rest, f);
        } else {
            let seen2 = seen.insert(files[0].file_id());
            if !seen2.contains(f.file_id()) {
                let i = choose|i: int| 0 <= i < files.len() && #[trigger] files[i].file_id() == f.file_id();
                assert(i != 0);
                assert(rest[i - 1].file_id() == f.file_id());
            }
            lemma_repeat_is_skipped(seen2, rest, f);
        }
    }
}

/// The file an interface is looked up as.
pub open spec fn interface_file(name: Seq<char>) -> Seq<char> {
    name + ".eti"@
}

/// The file name of the interface `name`.
pub fn interface_file_name(name: &str) -> (s: String)
    ensures
        s@ == interface_file(name@),
{
    let mut s = String::new();
    push_str(&mut s, name);
    push_str(&mut s, ".eti");
    proof {
        assert(s@ =~= interface_file(name@));
    }
    s
}

/// The strings of `parts` joined with `sep` between neighbours.
pub fn join_strings(parts: &[String], sep: &str) -> (s: String)
    ensures
        s@ == join(strings_view(parts@), sep@),
{
    let ghost e = strings_view(parts@);
    let n = parts.len();
    let mut s = String::new();
    if n == 0 {
        return s;
    }
    push_str(&mut s, parts[0].as_str());
    let mut i: usize = 1;
    proof {
        assert(s@ =~= parts@[0]@);
        assert(e.take(1).len() == 1);
        assert(join(e.take(1), sep@) == e[0]);
    }
    while i < n
        invariant
            n == parts@.len(),
            e == strings_view(parts@),
            1 <= i <= n,
            s@ == join(e.take(i as int), sep@),
        decreases n - i,
    {
        push_str(&mut s, sep);
        push_str(&mut s, parts[i].as_str());
        proof {
            let t = e.take(i + 1);
            assert(t.drop_last() =~= e.take(i as int));
            assert(t.last() == parts@[i as int]@);
        }
        i += 1;
    }
    proof {
        assert(e.take(n as int) =~= e);
    }
    s
}

/// What a `use name` at `at` that no searched place holds reports: an error
/// there naming the interface, a label naming its file, and the places
/// searched in a note.
pub open spec fn missing_interface_view(at: Span, name: Seq<char>, searched: Seq<Seq<char>>) -> DiagnosticView {
    DiagnosticView {
        level: Level::Error,
        message: "cannot find interface `"@ + name + "`"@,
        loc: Some(at),
        labels: seq![(at, "no `"@ + interface_file(name) + "` on the search path"@, LabelColor::Red)],
        code: None,
        note: Some("searched: "@ + join(searched, ", "@)),
    }
}

/// The error for a `use name` at `at` that none of the places `searched`
/// holds.
pub fn missing_interface(dcx: &DiagCtx, at: Span, name: &str, searched: &[String]) -> (d: Diag)
    ensures
        d@ == missing_interface_view(at, name@, strings_view(searched@)),
        d.is_armed(),
{
    let mut message = String::from_str("cannot find interface `");
    push_str(&mut message, name);
    push_str(&mut message, "`");
    let file = interface_file_name(name);
    let mut label = String::from_str("no `");
    push_str(&mut label, file.as_str());
    push_str(&mut label, "` on the search path");
    let mut note = String::from_str("searched: ");
    let places = join_strings(searched, ", ");
    push_str(&mut note, places.as_str());
    let d = dcx.err(at, message).with_primary_label(label).with_note(note);
    proof {
        assert(d@.labels =~= seq![(at, "no `"@ + interface_file(name@) + "` on the search path"@, LabelColor::Red)]);
    }
    d
}

} // verus!
