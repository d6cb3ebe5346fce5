//! The directory materializer: lists the regular files directly inside a
//! directory and reads each of them as text.
//!
//! The decisions are a state machine. A driver asks the machine for its
//! current `Request`, performs it on the filesystem, and hands the answer back
//! as an `Event`. When the machine reaches `Request::Finished`, `listing`
//! gives the result: the texts read, in the order they were read, or an empty
//! sequence if any step failed.
use vstd::prelude::*;

verus! {

/// What the driver has to do, or find out, next.
#[derive(Clone, Copy, PartialEq, Eq, Structural, Debug)]
pub enum Request {
    /// Answer whether the path exists.
    Exists,
    /// Answer whether the existing path denotes a directory.
    IsDir,
    /// Create the directory (one level).
    CreateDir,
    /// Start enumerating the directory's direct entries.
    OpenDir,
    /// Fetch the next entry of the enumeration.
    NextEntry,
    /// Answer whether the current entry is a regular file.
    IsFile,
    /// Read the current entry fully as text.
    ReadEntry,
    /// Nothing is left to do: the listing is ready.
    Finished,
}

/// The driver's answer to a request.
#[derive(Debug)]
pub enum Event {
    /// The answer to `Exists`, `IsDir` or `IsFile`.
    Answer(bool),
    /// `CreateDir` or `OpenDir` succeeded.
    Succeeded,
    /// The requested operation failed.
    Failed,
    /// `NextEntry` produced an entry.
    Entry,
    /// `NextEntry` found no more entries.
    Exhausted,
    /// `ReadEntry` produced this text.
    Text(String),
}

/// The mathematical form of an `Event`.
pub enum Reply {
    Answer(bool),
    Succeeded,
    Failed,
    Entry,
    Exhausted,
    Text(Seq<char>),
}

impl View for Event {
    type V = Reply;

    open spec fn view(&self) -> Reply {
        match self {
            Event::Answer(b) => Reply::Answer(*b),
            Event::Succeeded => Reply::Succeeded,
            Event::Failed => Reply::Failed,
            Event::Entry => Reply::Entry,
            Event::Exhausted => Reply::Exhausted,
            Event::Text(t) => Reply::Text(t@),
        }
    }
}

/// The state of a materialization: the pending request, the texts read so
/// far, and whether it finished on a failure.
pub struct Progress {
    pub request: Request,
    pub texts: Seq<Seq<char>>,
    pub failed: bool,
}

/// The state before anything was asked.
pub open spec fn start() -> Progress {
    Progress { request: Request::Exists, texts: Seq::empty(), failed: false }
}

/// `p` with `r` as the pending request.
pub open spec fn asking(p: Progress, r: Request) -> Progress {
    Progress { request: r, ..p }
}

/// `p` finished, on a failure or not.
pub open spec fn finished(p: Progress, failed: bool) -> Progress {
    Progress { request: Request::Finished, failed, ..p }
}

/// One transition. A missing path is created as a directory and then
/// listed; an existing path that is not a directory finishes at once with
/// nothing read; an entry that is not a
/// regular file is skipped; each text read is appended. Any failure, and any
/// answer that does not fit the pending request, finishes with a failure.
/// A finished state stays as it is.
pub open spec fn advance(p: Progress, e: Reply) -> Progress {
    match p.request {
        Request::Exists => match e {
            Reply::Answer(true) => asking(p, Request::IsDir),
            Reply::Answer(false) => asking(p, Request::CreateDir),
            _ => finished(p, true),
        },
        Request::IsDir => match e {
            Reply::Answer(true) => asking(p, Request::OpenDir),
            Reply::Answer(false) => finished(p, false),
            _ => finished(p, true),
        },
        Request::CreateDir => match e {
            Reply::Succeeded => asking(p, Request::OpenDir),
            _ => finished(p, true),
        },
        Request::OpenDir => match e {
            Reply::Succeeded => asking(p, Request::NextEntry),
            _ => finished(p, true),
        },
        Request::NextEntry => match e {
            Reply::Entry => asking(p, Request::IsFile),
            Reply::Exhausted => finished(p, false),
            _ => finished(p, true),
        },
        Request::IsFile => match e {
            Reply::Answer(true) => asking(p, Request::ReadEntry),
            Reply::Answer(false) => asking(p, Request::NextEntry),
            _ => finished(p, true),
        },
        Request::ReadEntry => match e {
            Reply::Text(t) => Progress { request: Request::NextEntry, texts: p.texts.push(t), ..p },
            _ => finished(p, true),
        },
        Request::Finished => p,
    }
}

/// What a materialization hands back: the texts read once it finished
/// without failure, and an empty sequence in every other case.
pub open spec fn listing_of(p: Progress) -> Seq<Seq<char>> {
    if p.request == Request::Finished && !p.failed {
        p.texts
    } else {
        Seq::empty()
    }
}

/// The texts held by `v`, as character sequences.
pub open spec fn texts_of(v: Seq<String>) -> Seq<Seq<char>> {
    v.map_values(|s: String| s@)
}

/// The executable state machine.
pub struct Materializer {
    request: Request,
    texts: Vec<String>,
    failed: bool,
}

impl View for Materializer {
    type V = Progress;

    closed spec fn view(&self) -> Progress {
        Progress {
            request: self.request,
            texts: texts_of(self.texts@),
            failed: self.failed,
        }
    }
}

impl Materializer {
    /// A materialization that has asked nothing yet.
    pub fn new() -> (m: Materializer)
        ensures
            m@ == start(),
    {
        let m = Materializer { request: Request::Exists, texts: Vec::new(), failed: false };
        assert(texts_of(m.texts@) =~= Seq::<Seq<char>>::empty());
        m
    }

    /// The pending request.
    pub fn request(&self) -> (r: Request)
        ensures
            r == self@.request,
    {
        self.request
    }

    /// Takes the driver's answer to the pending request.
    pub fn step(&mut self, event: Event)
        ensures
            final(self)@ == advance(old(self)@, event@),
    {
        // Each arm gives the next request and, when that is `Finished`,
        // whether the materialization failed.
        let (next, failure) = match self.request {
            Request::Exists => match event {
                Event::Answer(true) => (Request::IsDir, false),
                Event::Answer(false) => (Request::CreateDir, false),
                _ => (Request::Finished, true),
            },
            Request::IsDir => match event {
                Event::Answer(true) => (Request::OpenDir, false),
                Event::Answer(false) => (Request::Finished, false),
                _ => (Request::Finished, true),
            },
            Request::CreateDir => match event {
                Event::Succeeded => (Request::OpenDir, false),
                _ => (Request::Finished, true),
            },
            Request::OpenDir => match event {
                Event::Succeeded => (Request::NextEntry, false),
                _ => (Request::Finished, true),
            },
            Request::NextEntry => match event {
                Event::Entry => (Request::IsFile, false),
                Event::Exhausted => (Request::Finished, false),
                _ => (Request::Finished, true),
            },
            Request::IsFile => match event {
                Event::Answer(true) => (Request::ReadEntry, false),
                Event::Answer(false) => (Request::NextEntry, false),
                _ => (Request::Finished, true),
            },
            Request::ReadEntry => match event {
                Event::Text(t) => {
                    let ghost before = self.texts@;
                    self.texts.push(t);
                    proof {
                        assert(texts_of(self.texts@) =~= texts_of(before).push(t@));
                    }
                    (Request::NextEntry, false)
                },
                _ => (Request::Finished, true),
            },
            Request::Finished => (Request::Finished, self.failed),
        };
        self.request = next;
        if next == Request::Finished {
            self.failed = failure;
        }
    }

    /// The result of the materialization: the texts read, in order, once it
    /// finished without failure; an empty sequence otherwise.
    pub fn listing(self) -> (r: Vec<String>)
        ensures
            texts_of(r@) == listing_of(self@),
    {
        if self.request == Request::Finished && !self.failed {
            self.texts
        } else {
            let r: Vec<String> = Vec::new();
            assert(texts_of(r@) =~= Seq::<Seq<char>>::empty());
            r
        }
    }
}

/// The state reached from `p` by taking the replies `rs` in order.
pub open spec fn run(p: Progress, rs: Seq<Reply>) -> Progress
    decreases rs.len(),
{
    if rs.len() == 0 {
        p
    } else {
        advance(run(p, rs.drop_last()), rs.last())
    }
}

/// The replies that one directory entry gives: `None` stands for an entry
/// that is not a regular file (a subdirectory), `Some(t)` for a regular
/// file whose text is `t`.
pub open spec fn entry_replies(entry: Option<Seq<char>>) -> Seq<Reply> {
    match entry {
        Some(t) => seq![Reply::Entry, Reply::Answer(true), Reply::Text(t)],
        None => seq![Reply::Entry, Reply::Answer(false)],
    }
}

/// The replies that the entries give, one after the other.
pub open spec fn walk_replies(entries: Seq<Option<Seq<char>>>) -> Seq<Reply>
    decreases entries.len(),
{
    if entries.len() == 0 {
        Seq::empty()
    } else {
        walk_replies(entries.drop_last()) + entry_replies(entries.last())
    }
}

/// The replies of an existing, readable directory with these entries, in
/// its enumeration order: the path exists, it is a directory, it opens, then
/// the entries, then the end of the enumeration.
pub open spec fn directory_replies(entries: Seq<Option<Seq<char>>>) -> Seq<Reply> {
    seq![Reply::Answer(true), Reply::Answer(true), Reply::Succeeded] + walk_replies(entries) + seq![
        Reply::Exhausted,
    ]
}

/// The texts of the regular files among the entries, in order.
pub open spec fn file_texts(entries: Seq<Option<Seq<char>>>) -> Seq<Seq<char>>
    decreases entries.len(),
{
    if entries.len() == 0 {
        Seq::empty()
    } else {
        match entries.last() {
            Some(t) => file_texts(entries.drop_last()).push(t),
            None => file_texts(entries.drop_last()),
        }
    }
}

/// Taking two runs of replies one after the other is taking their
/// concatenation.
pub proof fn lemma_run_concat(p: Progress, a: Seq<Reply>, b: Seq<Reply>)
    ensures
        run(p, a + b) == run(run(p, a), b),
    decreases b.len(),
{
    if b.len() == 0 {
        assert(a + b =~= a);
    } else {
        assert((a + b).drop_last() =~= a + b.drop_last());
        lemma_run_concat(p, a, b.drop_last());
    }
}

/// Walking the entries from a pending `NextEntry` appends the texts of the
/// regular files and skips the rest.
proof fn lemma_walk(p: Progress, entries: Seq<Option<Seq<char>>>)
    requires
        p.request == Request::NextEntry,
    ensures
        run(p, walk_replies(entries)) == (Progress {
            request: Request::NextEntry,
            texts: p.texts + file_texts(entries),
            failed: p.failed,
        }),
    decreases entries.len(),
{
    if entries.len() == 0 {
        assert(p.texts + file_texts(entries) =~= p.texts);
    } else {
        let init = entries.drop_last();
        lemma_walk(p, init);
        lemma_run_concat(p, walk_replies(init), entry_replies(entries.last()));
        let q = run(p, walk_replies(init));
        let e = Seq::<Reply>::empty();
        let one = e.push(Reply::Entry);
        assert(run(q, e) == q);
        lemma_run_push(q, e, Reply::Entry);
        match entries.last() {
            Some(t) => {
                let two = one.push(Reply::Answer(true));
                lemma_run_push(q, one, Reply::Answer(true));
                lemma_run_push(q, two, Reply::Text(t));
                assert(entry_replies(entries.last()) =~= two.push(Reply::Text(t)));
                assert(p.texts + file_texts(entries) =~= (p.texts + file_texts(init)).push(t));
            },
            None => {
                lemma_run_push(q, one, Reply::Answer(false));
                assert(entry_replies(entries.last()) =~= one.push(Reply::Answer(false)));
            },
        }
    }
}

/// Taking one more reply is one more transition.
proof fn lemma_run_push(p: Progress, rs: Seq<Reply>, r: Reply)
    ensures
        run(p, rs.push(r)) == advance(run(p, rs), r),
{
    assert(rs.push(r).drop_last() =~= rs);
}

/// A readable directory lists exactly the texts of its regular files, in
/// enumeration order, each once; entries that are not regular files, such as
/// subdirectories, contribute nothing and are not descended into.
pub proof fn lemma_directory_listing(entries: Seq<Option<Seq<char>>>)
    ensures
        run(start(), directory_replies(entries)).request == Request::Finished,
        listing_of(run(start(), directory_replies(entries))) == file_texts(entries),
{
    let e = Seq::<Reply>::empty();
    let head = e.push(Reply::Answer(true)).push(Reply::Answer(true)).push(Reply::Succeeded);
    assert(run(start(), e) == start());
    lemma_run_push(start(), e, Reply::Answer(true));
    lemma_run_push(start(), e.push(Reply::Answer(true)), Reply::Answer(true));
    lemma_run_push(start(), e.push(Reply::Answer(true)).push(Reply::Answer(true)), Reply::Succeeded);
    let p = run(start(), head);
    assert(p.request == Request::NextEntry);
    lemma_walk(p, entries);
    lemma_run_concat(start(), head, walk_replies(entries));
    let mid = head + walk_replies(entries);
    lemma_run_push(start(), mid, Reply::Exhausted);
    assert(directory_replies(entries) =~= mid.push(Reply::Exhausted));
    assert(Seq::<Seq<char>>::empty() + file_texts(entries) =~= file_texts(entries));
}

/// An existing path that is not a directory lists nothing, and nothing is
/// asked after that answer: in particular nothing is created.
pub proof fn lemma_non_directory_lists_nothing(rest: Seq<Reply>)
    ensures
        run(start(), seq![Reply::Answer(true), Reply::Answer(false)] + rest) == finished(
            start(),
            false,
        ),
        listing_of(run(start(), seq![Reply::Answer(true), Reply::Answer(false)] + rest))
            == Seq::<Seq<char>>::empty(),
{
    let e = Seq::<Reply>::empty();
    let one = e.push(Reply::Answer(true));
    assert(run(start(), e) == start());
    lemma_run_push(start(), e, Reply::Answer(true));
    lemma_run_push(start(), one, Reply::Answer(false));
    assert(seq![Reply::Answer(true), Reply::Answer(false)] =~= one.push(Reply::Answer(false)));
    lemma_run_concat(start(), seq![Reply::Answer(true), Reply::Answer(false)], rest);
    lemma_finished_stays(finished(start(), false), rest);
}

/// A missing path is created as a directory before anything else is done,
/// and the new, empty directory lists nothing.
pub proof fn lemma_missing_directory_is_created()
    ensures
        run(start(), seq![Reply::Answer(false)]).request == Request::CreateDir,
        run(
            start(),
            seq![Reply::Answer(false), Reply::Succeeded, Reply::Succeeded, Reply::Exhausted],
        ) == finished(start(), false),
        listing_of(
            run(
                start(),
                seq![Reply::Answer(false), Reply::Succeeded, Reply::Succeeded, Reply::Exhausted],
            ),
        ) == Seq::<Seq<char>>::empty(),
{
    let e = Seq::<Reply>::empty();
    let s1 = e.push(Reply::Answer(false));
    let s2 = s1.push(Reply::Succeeded);
    let s3 = s2.push(Reply::Succeeded);
    assert(run(start(), e) == start());
    lemma_run_push(start(), e, Reply::Answer(false));
    lemma_run_push(start(), s1, Reply::Succeeded);
    lemma_run_push(start(), s2, Reply::Succeeded);
    lemma_run_push(start(), s3, Reply::Exhausted);
    assert(seq![Reply::Answer(false)] =~= s1);
    assert(seq![Reply::Answer(false), Reply::Succeeded, Reply::Succeeded, Reply::Exhausted]
        =~= s3.push(Reply::Exhausted));
}

/// Once finished, a materialization ignores every further reply.
pub proof fn lemma_finished_stays(p: Progress, rs: Seq<Reply>)
    requires
        p.request == Request::Finished,
    ensures
        run(p, rs) == p,
    decreases rs.len(),
{
    if rs.len() > 0 {
        lemma_finished_stays(p, rs.drop_last());
    }
}

/// A failure at any step discards the texts read so far: whatever follows,
/// the listing is empty.
pub proof fn lemma_failure_lists_nothing(p: Progress, rest: Seq<Reply>)
    requires
        p.request != Request::Finished,
    ensures
        listing_of(run(advance(p, Reply::Failed), rest)) == Seq::<Seq<char>>::empty(),
{
    lemma_finished_stays(advance(p, Reply::Failed), rest);
}

} // verus!
