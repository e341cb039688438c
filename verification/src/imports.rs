//! Putting imported files in the place of the statements that name them.
//!
//! Reading files is the host's part: the resolver asks for one file at a time,
//! each at most once. Files are numbered in the order in which they are asked
//! for; the program itself is number 0. A path is relative to the directory of
//! the file in which the import stands.

use crate::ast::{stmts_view, Program, Stmt, StmtKind, StmtKindV, StmtV};
use crate::text::{str_eq, texts};
use vstd::prelude::*;

verus! {

broadcast use crate::ast::group_views;

/// What the host has to do.
#[derive(Debug)]
pub enum Import {
    /// Parse the file of that path, which the file of that number imports, and
    /// supply it.
    Read(String, usize),
    /// Nothing is left to read.
    Done,
}

/// The model of an `Import`.
pub enum ImportV {
    Read(Seq<char>, usize),
    Done,
}

impl Import {
    pub open spec fn view(&self) -> ImportV {
        match self {
            Import::Read(path, file) => ImportV::Read(path@, *file),
            Import::Done => ImportV::Done,
        }
    }
}

/// The model of a `Resolver`.
pub struct ResolverV {
    /// The statements that are still to be looked at, each with the number of
    /// its file.
    pub todo: Seq<(StmtV, usize)>,
    /// The paths that were asked for, in that order.
    pub visited: Seq<Seq<char>>,
    pub out: Seq<StmtV>,
}

/// Statements of one file.
pub open spec fn of_file(ss: Seq<StmtV>, file: usize) -> Seq<(StmtV, usize)> {
    ss.map_values(|s: StmtV| (s, file))
}

impl ResolverV {
    pub open spec fn new(ss: Seq<StmtV>) -> ResolverV {
        ResolverV { todo: of_file(ss, 0), visited: Seq::empty(), out: Seq::empty() }
    }

    /// Statements are taken over as they are up to the next import of a path
    /// that was not asked for before; an import of one that was is left out.
    pub open spec fn advance(self) -> (ResolverV, ImportV)
        decreases self.todo.len(),
    {
        if self.todo.len() == 0 {
            (self, ImportV::Done)
        } else {
            let rest = self.todo.drop_first();
            match self.todo[0].0.kind {
                StmtKindV::Import(path) => if self.visited.contains(path) {
                    (ResolverV { todo: rest, ..self }).advance()
                } else {
                    (
                        ResolverV { todo: rest, visited: self.visited.push(path), ..self },
                        ImportV::Read(path, self.todo[0].1),
                    )
                },
                _ => (ResolverV { todo: rest, out: self.out.push(self.todo[0].0), ..self }).advance(),
            }
        }
    }

    /// The statements of a file stand where its import stood.
    pub open spec fn supply(self, ss: Seq<StmtV>) -> ResolverV {
        ResolverV { todo: of_file(ss, self.visited.len() as usize) + self.todo, ..self }
    }
}

/// A program whose imports are being resolved.
pub struct Resolver {
    /// What is still to be looked at, the next one last.
    todo: Vec<(Stmt, usize)>,
    visited: Vec<String>,
    out: Vec<Stmt>,
}

/// A stack of statements, from the top down.
spec fn from_top(s: Seq<(Stmt, usize)>) -> Seq<(StmtV, usize)> {
    Seq::new(s.len(), |i: int| (s[s.len() - 1 - i].0@, s[s.len() - 1 - i].1))
}

fn contains(v: &Vec<String>, s: &str) -> (r: bool)
    ensures
        r == texts(v@).contains(s@),
{
    let mut i: usize = 0;
    while i < v.len()
        invariant
            i <= v@.len(),
            forall|k: int| 0 <= k < i ==> (#[trigger] texts(v@)[k]) != s@,
        decreases v@.len() - i,
    {
        if str_eq(v[i].as_str(), s) {
            assert(texts(v@)[i as int] == s@);
            return true;
        }
        i += 1;
    }
    false
}

impl Resolver {
    pub closed spec fn view(&self) -> ResolverV {
        ResolverV {
            todo: from_top(self.todo@),
            visited: texts(self.visited@),
            out: stmts_view(self.out@),
        }
    }

    /// The statements of a file become the next ones to look at.
    fn stack(&mut self, program: Program, file: usize)
        ensures
            final(self)@ == (ResolverV {
                todo: of_file(stmts_view(program.stmts@), file) + old(self)@.todo,
                ..old(self)@
            }),
    {
        let ghost ss = stmts_view(program.stmts@);
        let ghost rest = self@.todo;
        let mut left = program.stmts;
        assert(of_file(ss.skip(ss.len() as int), file) + rest =~= rest);
        while left.len() > 0
            invariant
                left@.len() <= ss.len(),
                stmts_view(left@) =~= ss.take(left@.len() as int),
                self@ == (ResolverV {
                    todo: of_file(ss.skip(left@.len() as int), file) + rest,
                    ..old(self)@
                }),
            decreases left@.len(),
        {
            let ghost before = *self;
            let ghost n = left@.len() as int;
            let ghost prev = left@;
            match left.pop() {
                Some(s) => {
                    assert(stmts_view(prev)[n - 1] == s@);
                    assert(s@ == ss[n - 1]);
                    self.todo.push((s, file));
                    assert(from_top(self.todo@) =~= seq![(s@, file)] + from_top(before.todo@));
                    assert(of_file(ss.skip(n - 1), file) =~= seq![(ss[n - 1], file)] + of_file(
                        ss.skip(n),
                        file,
                    ));
                    assert(of_file(ss.skip(n - 1), file) + rest =~= seq![(s@, file)] + (of_file(
                        ss.skip(n),
                        file,
                    ) + rest));
                    assert(stmts_view(left@) =~= ss.take(n - 1));
                },
                None => {},
            }
        }
        assert(ss.skip(0) =~= ss);
    }

    pub fn new(program: Program) -> (r: Self)
        ensures
            r@ == ResolverV::new(stmts_view(program.stmts@)),
    {
        let mut r = Resolver { todo: Vec::new(), visited: Vec::new(), out: Vec::new() };
        assert(r@.todo =~= Seq::empty());
        assert(r@.visited =~= Seq::empty());
        assert(r@.out =~= Seq::empty());
        r.stack(program, 0);
        assert(r@.todo =~= of_file(stmts_view(program.stmts@), 0));
        r
    }

    /// Go on up to the next file that is needed.
    pub fn advance(&mut self) -> (r: Import)
        ensures
            (final(self)@, r@) == old(self)@.advance(),
    {
        while self.todo.len() > 0
            invariant
                self@.advance() == old(self)@.advance(),
            decreases self.todo@.len(),
        {
            let ghost before = self@;
            let ghost out = self.out@;
            let ghost visited = self.visited@;
            assert(before.todo.len() == self.todo@.len());
            match self.todo.pop() {
                Some((s, file)) => {
                    assert(before.todo[0] == (s@, file));
                    assert(s@.kind == s.kind@);
                    assert(from_top(self.todo@) =~= before.todo.drop_first());
                    match &s.kind {
                        StmtKind::Import(path) => {
                            if !contains(&self.visited, path.as_str()) {
                                let ghost p = path@;
                                let asked = path.clone();
                                self.visited.push(path.clone());
                                assert(texts(self.visited@) =~= before.visited.push(p));
                                return Import::Read(asked, file);
                            }
                        },
                        _ => {
                            let ghost sv = s@;
                            self.out.push(s);
                            assert(stmts_view(self.out@) =~= before.out.push(sv));
                        },
                    }
                },
                None => {},
            }
        }
        assert(self@.todo.len() == 0);
        Import::Done
    }

    /// The file that was asked for last.
    pub fn supply(&mut self, program: Program)
        ensures
            final(self)@ == old(self)@.supply(stmts_view(program.stmts@)),
    {
        assert(texts(self.visited@).len() == self.visited@.len());
        let file = self.visited.len();
        self.stack(program, file);
    }

    /// The program as far as it is resolved.
    pub fn finish(self) -> (r: Program)
        ensures
            stmts_view(r.stmts@) == self@.out,
    {
        Program { stmts: self.out }
    }
}

// ---- laws ----

/// No file is asked for twice.
pub proof fn law_no_file_is_read_twice(r: ResolverV)
    requires
        r.visited.no_duplicates(),
    ensures
        r.advance().0.visited.no_duplicates(),
        r.advance().1 matches ImportV::Read(path, _) ==> !r.visited.contains(path)
            && r.advance().0.visited == r.visited.push(path),
    decreases r.todo.len(),
{
    if r.todo.len() > 0 {
        let rest = r.todo.drop_first();
        match r.todo[0].0.kind {
            StmtKindV::Import(path) => {
                if r.visited.contains(path) {
                    law_no_file_is_read_twice(ResolverV { todo: rest, ..r });
                }
            },
            _ => {
                law_no_file_is_read_twice(
                    ResolverV { todo: rest, out: r.out.push(r.todo[0].0), ..r },
                );
            },
        }
    }
}

/// What is resolved holds no import.
pub proof fn law_no_import_is_left(r: ResolverV)
    requires
        forall|i: int| 0 <= i < r.out.len() ==> !((#[trigger] r.out[i]).kind is Import),
    ensures
        forall|i: int|
            0 <= i < r.advance().0.out.len() ==> !((#[trigger] r.advance().0.out[i]).kind is Import),
    decreases r.todo.len(),
{
    if r.todo.len() > 0 {
        let rest = r.todo.drop_first();
        match r.todo[0].0.kind {
            StmtKindV::Import(path) => {
                if r.visited.contains(path) {
                    law_no_import_is_left(ResolverV { todo: rest, ..r });
                }
            },
            _ => {
                law_no_import_is_left(
                    ResolverV { todo: rest, out: r.out.push(r.todo[0].0), ..r },
                );
            },
        }
    }
}

/// Statements without an import are taken over as they are, in their order.
pub proof fn law_statements_keep_their_order(r: ResolverV)
    requires
        forall|i: int| 0 <= i < r.todo.len() ==> !((#[trigger] r.todo[i]).0.kind is Import),
    ensures
        r.advance().1 is Done,
        r.advance().0.out == r.out + r.todo.map_values(|s: (StmtV, usize)| s.0),
    decreases r.todo.len(),
{
    let f = |s: (StmtV, usize)| s.0;
    if r.todo.len() > 0 {
        let rest = r.todo.drop_first();
        let next = ResolverV { todo: rest, out: r.out.push(r.todo[0].0), ..r };
        assert forall|i: int| 0 <= i < rest.len() implies !((#[trigger] rest[i]).0.kind is Import) by {
            assert(rest[i] == r.todo[i + 1]);
        }
        assert(!(r.todo[0].0.kind is Import));
        law_statements_keep_their_order(next);
        assert(r.out + r.todo.map_values(f) =~= r.out.push(r.todo[0].0) + rest.map_values(f));
    } else {
        assert(r.out + r.todo.map_values(f) =~= r.out);
    }
}

} // verus!
