//! Loading a kernel module and what it needs, one file at a time.
//!
//! [`ModuleLoader::load`] begins. [`Loading::job`] says what is to be done next,
//! and [`Loading::advance`] takes the reply.
use crate::modload;
use crate::modload::{Attempt, Finit, LoaderView, ModuleLoader, Walk};
use crate::paths;
use crate::text;
use vstd::prelude::*;

verus! {

/// What the caller is to do.
#[derive(Debug, Clone)]
pub enum LoadJob {
    /// See whether this directory is there: then the kernel has the module.
    Look(String),
    /// Insert this file.
    Insert(String),
    /// All is loaded.
    Done,
    Failed(String),
}

pub enum LoadJobView {
    Look(Seq<char>),
    Insert(Seq<char>),
    Done,
    Failed(Seq<char>),
}

impl View for LoadJob {
    type V = LoadJobView;

    open spec fn view(&self) -> LoadJobView {
        match self {
            LoadJob::Look(p) => LoadJobView::Look(p@),
            LoadJob::Insert(p) => LoadJobView::Insert(p@),
            LoadJob::Done => LoadJobView::Done,
            LoadJob::Failed(e) => LoadJobView::Failed(e@),
        }
    }
}

/// What a job has brought.
#[derive(Debug, Clone, Copy, PartialEq, Eq, Structural)]
pub enum LoadReply {
    /// Whether the kernel has the module.
    There(bool),
    /// What became of the file.
    Tried(Attempt),
}

/// How far loading has come.
#[derive(Debug)]
pub struct Loading {
    /// The modules to load, in order.
    pub order: Vec<String>,
    /// How many of them are loaded.
    pub at: usize,
    /// What became of the files of the next module so far.
    pub tried: Vec<Attempt>,
    /// The file to insert next, where the kernel does not have the module.
    pub file: Option<String>,
    /// Why loading has ended early.
    pub error: Option<String>,
}

#[verifier::ext_equal]
pub struct LoadingView {
    pub order: Seq<Seq<char>>,
    pub at: int,
    pub tried: Seq<Attempt>,
    pub file: Option<Seq<char>>,
    pub error: Option<Seq<char>>,
}

impl View for Loading {
    type V = LoadingView;

    open spec fn view(&self) -> LoadingView {
        LoadingView {
            order: text::strings(self.order@),
            at: self.at as int,
            tried: self.tried@,
            file: text::opt_text(self.file),
            error: text::opt_text(self.error),
        }
    }
}

/// Loading `name`, before the first reply. Where a module is missing from the
/// table or needs itself, loading has failed.
pub open spec fn load_started(l: LoaderView, name: Seq<char>) -> LoadingView {
    match modload::load_order(l, name) {
        Walk::Order(order) => LoadingView { order, at: 0, tried: seq![], file: None, error: None },
        Walk::Error(e) => LoadingView {
            order: seq![],
            at: 0,
            tried: seq![],
            file: None,
            error: Some(e),
        },
    }
}

/// Whether loading has come to its end.
pub open spec fn load_ended(s: LoadingView) -> bool {
    s.error is Some || s.at >= s.order.len()
}

/// What is to be done next.
pub open spec fn load_job(s: LoadingView) -> LoadJobView {
    match s.error {
        Some(e) => LoadJobView::Failed(e),
        None => if s.at >= s.order.len() {
            LoadJobView::Done
        } else {
            match s.file {
                Some(p) => LoadJobView::Insert(p),
                None => LoadJobView::Look(modload::loaded_path(s.order[s.at])),
            }
        },
    }
}

/// The kernel has the module: the next one follows.
pub open spec fn module_loaded(s: LoadingView) -> LoadingView {
    LoadingView { at: s.at + 1, tried: seq![], file: None, ..s }
}

/// What became of the files of the module so far is known.
pub open spec fn files_tried(l: LoaderView, s: LoadingView, tried: Seq<Attempt>) -> LoadingView {
    match modload::finit_of(l, s.order[s.at], tried) {
        modload::FinitView::Try(p) => LoadingView { tried, file: Some(p), ..s },
        modload::FinitView::Loaded => module_loaded(s),
        modload::FinitView::Failed(e) => LoadingView {
            tried: seq![],
            file: None,
            error: Some(e),
            ..s
        },
    }
}

/// Loading after a reply. A reply that does not answer the job changes nothing.
pub open spec fn load_advanced(l: LoaderView, s: LoadingView, r: LoadReply) -> LoadingView {
    if load_ended(s) {
        s
    } else {
        match (s.file, r) {
            (None, LoadReply::There(there)) => if there {
                module_loaded(s)
            } else {
                files_tried(l, s, seq![])
            },
            (Some(_), LoadReply::Tried(a)) => files_tried(l, s, s.tried.push(a)),
            _ => s,
        }
    }
}

impl ModuleLoader {
    /// Begins to load the module `name`: what it needs is loaded first, and
    /// what the kernel has is passed over.
    pub fn load(&self, name: &str) -> (r: Loading)
        ensures
            r@ == load_started(self@, name@),
    {
        let mut s = Loading {
            order: Vec::new(),
            at: 0,
            tried: Vec::new(),
            file: None,
            error: None,
        };
        assert(text::strings(s.order@) =~= Seq::<Seq<char>>::empty());
        match self.resolve_order(name) {
            Ok(order) => {
                s.order = order;
            },
            Err(e) => {
                s.error = Some(e);
            },
        }
        s
    }
}

impl Loading {
    /// What is to be done next.
    pub fn job(&self) -> (r: LoadJob)
        ensures
            r@ == load_job(self@),
    {
        if let Some(e) = &self.error {
            return LoadJob::Failed(e.clone());
        }
        if self.at >= self.order.len() {
            return LoadJob::Done;
        }
        assert(self@.order[self.at as int] == self.order@[self.at as int]@);
        match &self.file {
            Some(p) => LoadJob::Insert(p.clone()),
            None => LoadJob::Look(ModuleLoader::loaded_dir(self.order[self.at].as_str())),
        }
    }

    fn settle(&mut self, loader: &ModuleLoader)
        requires
            old(self).at < old(self).order.len(),
        ensures
            final(self)@ == files_tried(loader@, old(self)@, old(self).tried@),
    {
        assert(self@.order[self.at as int] == self.order@[self.at as int]@);
        match loader.finit(self.order[self.at].as_str(), &self.tried) {
            Finit::Try(p) => {
                self.file = Some(p);
            },
            Finit::Loaded => {
                self.next();
            },
            Finit::Failed(e) => {
                self.tried = Vec::new();
                self.file = None;
                self.error = Some(e);
            },
        }
    }

    fn next(&mut self)
        requires
            old(self).at < old(self).order.len(),
        ensures
            final(self)@ == module_loaded(old(self)@),
    {
        self.at = self.at + 1;
        self.tried = Vec::new();
        self.file = None;
    }

    /// Takes the reply to the current job.
    pub fn advance(&mut self, loader: &ModuleLoader, reply: LoadReply)
        ensures
            final(self)@ == load_advanced(loader@, old(self)@, reply),
    {
        if self.error.is_some() || self.at >= self.order.len() {
            return ;
        }
        match (self.file.is_some(), reply) {
            (false, LoadReply::There(there)) => {
                if there {
                    self.next();
                } else {
                    self.tried = Vec::new();
                    self.settle(loader);
                }
            },
            (true, LoadReply::Tried(a)) => {
                self.tried.push(a);
                self.settle(loader);
            },
            _ => {},
        }
    }
}

/// Loading after a row of replies.
pub open spec fn load_played(l: LoaderView, s: LoadingView, rs: Seq<LoadReply>) -> LoadingView
    decreases rs.len(),
{
    if rs.len() == 0 {
        s
    } else {
        load_advanced(l, load_played(l, s, rs.drop_last()), rs.last())
    }
}

/// Whether a reply says that the kernel has the module that loading stands at.
pub open spec fn confirms(s: LoadingView, r: LoadReply) -> bool {
    match s.file {
        None => r == LoadReply::There(true),
        Some(_) => r == LoadReply::Tried(Attempt::Inserted) || r == LoadReply::Tried(
            Attempt::Refused(17),
        ),
    }
}

/// Whether a row of replies has said of the module at `i` that the kernel has
/// it.
pub open spec fn confirmed(l: LoaderView, s: LoadingView, rs: Seq<LoadReply>, i: int) -> bool
    decreases rs.len(),
{
    rs.len() > 0 && (confirmed(l, s, rs.drop_last(), i) || {
        let t = load_played(l, s, rs.drop_last());
        !load_ended(t) && t.at == i && confirms(t, rs.last())
    })
}

/// Whether a row of replies has said of the module at `i` that the kernel does
/// not have it.
pub open spec fn denied(l: LoaderView, s: LoadingView, rs: Seq<LoadReply>, i: int) -> bool
    decreases rs.len(),
{
    rs.len() > 0 && (denied(l, s, rs.drop_last(), i) || {
        let t = load_played(l, s, rs.drop_last());
        !load_ended(t) && t.at == i && t.file is None && rs.last() == LoadReply::There(false)
    })
}

/// What holds between two replies: the file to insert next stands in the first
/// root that was not yet tried.
pub open spec fn load_sound(l: LoaderView, s: LoadingView) -> bool {
    &&& 0 <= s.at
    &&& s.file is None ==> s.tried.len() == 0
    &&& s.file matches Some(p) ==> {
        &&& s.error is None
        &&& s.at < s.order.len()
        &&& s.tried.len() < l.bases.len()
        &&& forall|i: int| 0 <= i < s.tried.len() ==> #[trigger] s.tried[i] == Attempt::Missing
        &&& p == paths::joined(
            l.bases[s.tried.len() as int],
            l.entries[modload::position(l.entries, s.order[s.at])].path,
        )
        &&& modload::known(l.entries, s.order[s.at])
    }
}

proof fn lemma_tried(l: LoaderView, key: Seq<char>, tried: Seq<Attempt>, a: Attempt)
    requires
        modload::known(l.entries, key),
        tried.len() < l.bases.len(),
        forall|i: int| 0 <= i < tried.len() ==> #[trigger] tried[i] == Attempt::Missing,
    ensures
        ({
            let path = l.entries[modload::position(l.entries, key)].path;
            let n = tried.len() as int;
            modload::finit_of(l, key, tried.push(a)) == match a {
                Attempt::Missing => if n + 1 < l.bases.len() {
                    modload::FinitView::Try(paths::joined(l.bases[n + 1], path))
                } else {
                    modload::FinitView::Failed(
                        "kext '"@ + path + "' not found in any module root"@,
                    )
                },
                Attempt::Inserted => modload::FinitView::Loaded,
                Attempt::Refused(code) => if code == 17 {
                    modload::FinitView::Loaded
                } else {
                    modload::FinitView::Failed(
                        modload::refusal(paths::joined(l.bases[n], path), modload::errno_text(code)),
                    )
                },
            }
        }),
{
    let t = tried.push(a);
    let n = tried.len() as int;
    assert forall|i: int| 0 <= i < n implies t[i] == Attempt::Missing by {
        assert(t[i] == tried[i]);
    }
    if a == Attempt::Missing {
        modload::lemma_first_found(t, n + 1);
    } else {
        modload::lemma_first_found(t, n);
    }
}

/// A reply keeps loading sound. The number of loaded modules grows with every
/// reply that says that the kernel has one, and with no other.
pub proof fn lemma_load_step(l: LoaderView, s: LoadingView, r: LoadReply)
    requires
        load_sound(l, s),
    ensures
        load_sound(l, load_advanced(l, s, r)),
        load_advanced(l, s, r).order == s.order,
        load_advanced(l, s, r).at == if !load_ended(s) && confirms(s, r) {
            s.at + 1
        } else {
            s.at
        },
        load_advanced(l, s, r).file is Some && s.file is None ==> r == LoadReply::There(false)
            && load_advanced(l, s, r).at == s.at,
{
    if !load_ended(s) {
        let key = s.order[s.at];
        match (s.file, r) {
            (Some(_), LoadReply::Tried(a)) => {
                lemma_tried(l, key, s.tried, a);
            },
            (None, LoadReply::There(false)) => {
                modload::lemma_first_found(seq![], 0);
            },
            _ => {},
        }
    }
}

/// Where a module is missing from the table or needs itself, loading fails and
/// nothing is ever inserted.
pub proof fn law_broken_orders_insert_nothing(l: LoaderView, name: Seq<char>, rs: Seq<LoadReply>)
    requires
        modload::load_order(l, name) is Error,
    ensures
        load_job(load_played(l, load_started(l, name), rs)) == LoadJobView::Failed(
            modload::load_order(l, name)->Error_0,
        ),
    decreases rs.len(),
{
    if rs.len() > 0 {
        law_broken_orders_insert_nothing(l, name, rs.drop_last());
        assert(load_played(l, load_started(l, name), rs.drop_last()).error is Some);
    }
}

/// The first failure ends loading: nothing is inserted after it.
pub proof fn law_first_failure_ends_loading(l: LoaderView, s: LoadingView, rs: Seq<LoadReply>)
    requires
        s.error is Some,
    ensures
        load_played(l, s, rs) == s,
        load_job(s) == LoadJobView::Failed(s.error->0),
    decreases rs.len(),
{
    if rs.len() > 0 {
        law_first_failure_ends_loading(l, s, rs.drop_last());
    }
}

/// What becomes of a file decides: a file that went in, or that the kernel
/// already had, settles the module; one that the kernel refused ends loading;
/// one that is not there sends loading to the next root, or ends it after the
/// last.
pub proof fn law_files_decide(l: LoaderView, s: LoadingView, a: Attempt)
    requires
        load_sound(l, s),
        load_job(s) is Insert,
    ensures
        ({
            let t = load_advanced(l, s, LoadReply::Tried(a));
            match a {
                Attempt::Inserted => t == module_loaded(s),
                Attempt::Refused(code) => if code == 17 {
                    t == module_loaded(s)
                } else {
                    t.error == Some(modload::refusal(s.file->0, modload::errno_text(code)))
                },
                Attempt::Missing => if s.tried.len() + 1 < l.bases.len() {
                    load_job(t) is Insert && t.at == s.at && t.tried.len() == s.tried.len() + 1
                } else {
                    t.error is Some
                },
            }
        }),
{
    lemma_tried(l, s.order[s.at], s.tried, a);
}

/// Modules are loaded one by one in the order that [`ModuleLoader::resolve_order`]
/// gives: whatever loading stands at, the kernel has all modules before it. A
/// file is inserted only after the kernel was found not to have the module. At
/// the end the kernel has all.
pub proof fn law_modules_are_loaded_in_turn(l: LoaderView, name: Seq<char>, rs: Seq<LoadReply>)
    requires
        modload::load_order(l, name) is Order,
    ensures
        ({
            let s = load_started(l, name);
            let t = load_played(l, s, rs);
            &&& load_sound(l, t)
            &&& t.order == modload::load_order(l, name)->Order_0
            &&& 0 <= t.at <= t.order.len()
            &&& forall|i: int| 0 <= i < t.at ==> #[trigger] confirmed(l, s, rs, i)
            &&& load_job(t) is Insert ==> denied(l, s, rs, t.at)
            &&& load_job(t) is Done ==> t.at == t.order.len()
        }),
    decreases rs.len(),
{
    let s = load_started(l, name);
    if rs.len() > 0 {
        let before = rs.drop_last();
        law_modules_are_loaded_in_turn(l, name, before);
        let u = load_played(l, s, before);
        let t = load_played(l, s, rs);
        lemma_load_step(l, u, rs.last());
        assert forall|i: int| 0 <= i < t.at implies #[trigger] confirmed(l, s, rs, i) by {
            if i < u.at {
                assert(confirmed(l, s, before, i));
            }
        }
    }
}

/// Where the kernel has all modules, nothing is inserted and loading succeeds.
pub proof fn law_loaded_modules_are_passed_over(l: LoaderView, name: Seq<char>, rs: Seq<LoadReply>)
    requires
        modload::load_order(l, name) is Order,
        rs.len() <= (modload::load_order(l, name)->Order_0).len(),
        forall|i: int| 0 <= i < rs.len() ==> #[trigger] rs[i] == LoadReply::There(true),
    ensures
        ({
            let t = load_played(l, load_started(l, name), rs);
            &&& t.at == rs.len()
            &&& load_job(t) is Look || load_job(t) is Done
            &&& load_job(t) is Done <==> rs.len() == (modload::load_order(l, name)->Order_0).len()
        }),
    decreases rs.len(),
{
    law_modules_are_loaded_in_turn(l, name, rs);
    if rs.len() > 0 {
        let before = rs.drop_last();
        assert forall|i: int| 0 <= i < before.len() implies #[trigger] before[i]
            == LoadReply::There(true) by {
            assert(rs[i] == LoadReply::There(true));
        }
        law_loaded_modules_are_passed_over(l, name, before);
        assert(rs[rs.len() - 1] == LoadReply::There(true));
    }
}

/// A module that the kernel does not have is loaded by the file in the first
/// root, and loading goes on to the next module.
pub proof fn law_inserted_files_settle_a_module(l: LoaderView, s: LoadingView)
    requires
        load_job(s) is Look,
        s.tried.len() == 0,
        l.bases.len() > 0,
        modload::known(l.entries, s.order[s.at]),
    ensures
        ({
            let e = l.entries[modload::position(l.entries, s.order[s.at])];
            let t = load_advanced(l, s, LoadReply::There(false));
            let u = load_advanced(l, t, LoadReply::Tried(Attempt::Inserted));
            &&& load_job(s) == LoadJobView::Look(
                paths::joined("/sys/module"@, modload::canonical_text(s.order[s.at])),
            )
            &&& load_job(t) == LoadJobView::Insert(paths::joined(l.bases[0], e.path))
            &&& u.at == s.at + 1 && u.order == s.order && u.error is None && u.file is None
            &&& u.tried.len() == 0
            &&& load_job(u) == if s.at + 1 < s.order.len() {
                LoadJobView::Look(
                    paths::joined("/sys/module"@, modload::canonical_text(s.order[s.at + 1])),
                )
            } else {
                LoadJobView::Done
            }
        }),
{
    let t = load_advanced(l, s, LoadReply::There(false));
    modload::law_roots_are_searched_in_turn(l, s.order[s.at], seq![], 0);
    let one = seq![].push(Attempt::Inserted);
    assert(t.tried.push(Attempt::Inserted) =~= one);
    modload::law_roots_are_searched_in_turn(l, s.order[s.at], one, 0);
}

} // verus!
