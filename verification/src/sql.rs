//! The copy of the database file.
use vstd::prelude::*;

use crate::error::{BackupError, ErrorView};
use crate::text::join2;

verus! {

/// A text as it stands inside a quoted SQL literal: every quote is written twice.
pub open spec fn quoted(text: Seq<char>) -> Seq<char>
    decreases text.len(),
{
    if text.len() == 0 {
        Seq::empty()
    } else if text[0] == '\'' {
        seq!['\'', '\''] + quoted(text.skip(1))
    } else {
        seq![text[0]] + quoted(text.skip(1))
    }
}

/// The statement that writes a compacted copy of a database to the file at `out_path`.
pub open spec fn vacuum_into(out_path: Seq<char>) -> Seq<char> {
    "VACUUM INTO '"@ + quoted(out_path) + "'"@
}

/// How SQL reads a literal, from behind its opening quote: the text it stands for, and what
/// follows the closing quote; nothing if the literal does not end.
pub open spec fn literal(source: Seq<char>) -> Option<(Seq<char>, Seq<char>)>
    decreases source.len(),
{
    if source.len() == 0 {
        None
    } else if source[0] != '\'' {
        match literal(source.skip(1)) {
            Some((text, rest)) => Some((seq![source[0]] + text, rest)),
            None => None,
        }
    } else if source.len() > 1 && source[1] == '\'' {
        match literal(source.skip(2)) {
            Some((text, rest)) => Some((seq!['\''] + text, rest)),
            None => None,
        }
    } else {
        Some((Seq::empty(), source.skip(1)))
    }
}

/// The statement that writes a compacted copy of a database to the file at `out_path`.
pub fn vacuum_into_statement(out_path: &str) -> (sql: String)
    ensures
        sql@ == vacuum_into(out_path@),
{
    let mut sql = join2("VACUUM INTO '", "");
    assert(sql@ =~= "VACUUM INTO '"@) by {
        reveal_strlit("");
    }
    let count: usize = out_path.unicode_len();
    let mut i: usize = 0;
    assert(out_path@.skip(0) =~= out_path@);
    while i < count
        invariant
            i <= count,
            count == out_path@.len(),
            sql@ + quoted(out_path@.skip(i as int)) == "VACUUM INTO '"@ + quoted(out_path@),
        decreases count - i,
    {
        let ghost before = sql@;
        let ghost left = out_path@.skip(i as int);
        let c = out_path.get_char(i);
        if c == '\'' {
            sql.push('\'');
        }
        sql.push(c);
        i += 1;
        proof {
            let rest = quoted(out_path@.skip(i as int));
            assert(left.skip(1) =~= out_path@.skip(i as int));
            assert(left[0] == c);
            assert(sql@ + rest =~= before + quoted(left));
        }
    }
    proof {
        assert(quoted(out_path@.skip(i as int)) =~= Seq::empty());
        assert(sql@ =~= sql@ + quoted(out_path@.skip(i as int)));
    }
    sql.append("'");
    sql
}

proof fn lemma_literal_of_quoted(text: Seq<char>, rest: Seq<char>)
    requires
        rest.len() == 0 || rest[0] != '\'',
    ensures
        literal(quoted(text) + seq!['\''] + rest) == Some((text, rest)),
    decreases text.len(),
{
    let source = quoted(text) + seq!['\''] + rest;
    if text.len() == 0 {
        assert(source =~= seq!['\''] + rest);
        assert(source.skip(1) =~= rest);
        assert(text =~= Seq::empty());
    } else {
        let inner = quoted(text.skip(1)) + seq!['\''] + rest;
        lemma_literal_of_quoted(text.skip(1), rest);
        assert(seq![text[0]] + text.skip(1) =~= text);
        if text[0] == '\'' {
            assert(source =~= seq!['\'', '\''] + inner);
            assert(source.skip(2) =~= inner);
        } else {
            assert(source =~= seq![text[0]] + inner);
            assert(source.skip(1) =~= inner);
        }
    }
}

/// Whatever the path is, the statement begins with the words `VACUUM INTO` and an opening quote,
/// SQL reads exactly the path out of the literal behind it, and the statement ends with the
/// literal: no path can end the literal early or add to the statement.
pub proof fn law_statement_names_the_path(out_path: Seq<char>)
    ensures
        ("VACUUM INTO '"@).is_prefix_of(vacuum_into(out_path)),
        vacuum_into(out_path).take(13) == seq![
            'V',
            'A',
            'C',
            'U',
            'U',
            'M',
            ' ',
            'I',
            'N',
            'T',
            'O',
            ' ',
            '\'',
        ],
        literal(vacuum_into(out_path).skip("VACUUM INTO '"@.len() as int)) == Some(
            (out_path, Seq::<char>::empty()),
        ),
{
    reveal_strlit("'");
    reveal_strlit("VACUUM INTO '");
    assert("VACUUM INTO '"@ =~= vacuum_into(out_path).take("VACUUM INTO '"@.len() as int));
    lemma_literal_of_quoted(out_path, Seq::empty());
    assert(vacuum_into(out_path).skip("VACUUM INTO '"@.len() as int) =~= quoted(out_path) + seq![
        '\'',
    ] + Seq::empty());
}

/// What the copy of a database needs done next.
#[derive(Debug)]
pub enum SqliteRequest {
    /// Open the database that is copied.
    Open,
    /// Run this statement on it.
    Execute(String),
}

/// The state of the copy of a database; `Finished` tells how it ended.
pub enum SqliteView {
    Opening(Seq<char>),
    Executing(Seq<char>),
    Finished(Result<(), ErrorView>),
}

enum SqliteState {
    Opening(String),
    Executing(String),
    Finished(Result<(), BackupError>),
}

/// Copies a database to a file, asking for what it needs step by step.
pub struct SqliteJob {
    state: SqliteState,
}

impl View for SqliteJob {
    type V = SqliteView;

    closed spec fn view(&self) -> SqliteView {
        match self.state {
            SqliteState::Opening(sql) => SqliteView::Opening(sql@),
            SqliteState::Executing(sql) => SqliteView::Executing(sql@),
            SqliteState::Finished(Ok(_)) => SqliteView::Finished(Ok(())),
            SqliteState::Finished(Err(error)) => SqliteView::Finished(Err(error@)),
        }
    }
}

/// The job after what came of its request: an error of the database engine ends it.
pub open spec fn sqlite_step(job: SqliteView, done: Result<(), Seq<char>>) -> SqliteView {
    match (job, done) {
        (SqliteView::Finished(_), _) => job,
        (_, Err(text)) => SqliteView::Finished(Err(ErrorView::Snapshot(text))),
        (SqliteView::Opening(sql), Ok(_)) => SqliteView::Executing(sql),
        (SqliteView::Executing(_), Ok(_)) => SqliteView::Finished(Ok(())),
    }
}

/// The job after all that came of its requests.
pub open spec fn sqlite_run(
    job: SqliteView,
    dones: Seq<Result<(), Seq<char>>>,
) -> SqliteView
    decreases dones.len(),
{
    if dones.len() == 0 {
        job
    } else {
        sqlite_step(sqlite_run(job, dones.drop_last()), dones.last())
    }
}

/// A copy of a database opens it, runs the one statement that it was begun with, and is over. It
/// succeeds exactly where both were done; otherwise it ends with the text of the first that was
/// not, as a failed snapshot, and nothing after that is asked for.
pub proof fn law_database_copy(sql: Seq<char>, dones: Seq<Result<(), Seq<char>>>)
    ensures
        ({
            let end = sqlite_run(SqliteView::Opening(sql), dones);
            &&& dones.len() == 0 ==> end == SqliteView::Opening(sql)
            &&& dones.len() == 1 && dones[0] is Ok ==> end == SqliteView::Executing(sql)
            &&& dones.len() >= 1 && dones[0] is Err ==> end == SqliteView::Finished(
                Err(ErrorView::Snapshot(dones[0]->Err_0)),
            )
            &&& dones.len() >= 2 && dones[0] is Ok && dones[1] is Err ==> end
                == SqliteView::Finished(Err(ErrorView::Snapshot(dones[1]->Err_0)))
            &&& dones.len() >= 2 && dones[0] is Ok && dones[1] is Ok ==> end
                == SqliteView::Finished(Ok(()))
        }),
    decreases dones.len(),
{
    reveal_with_fuel(sqlite_run, 3);
    if dones.len() > 2 {
        law_database_copy(sql, dones.drop_last());
    } else if dones.len() == 2 {
        assert(dones.drop_last().last() == dones[0]);
        assert(dones.drop_last().drop_last().len() == 0);
    } else if dones.len() == 1 {
        assert(dones.drop_last().len() == 0);
    }
}

/// The copy of a database to the file at `out_path`, as a job. Nothing may write to the database
/// while it is copied.
pub fn snapshot_sqlite(out_path: &str) -> (job: SqliteJob)
    ensures
        job@ == SqliteView::Opening(vacuum_into(out_path@)),
{
    SqliteJob { state: SqliteState::Opening(vacuum_into_statement(out_path)) }
}

impl SqliteJob {
    /// What the job needs next; nothing once it is over.
    pub fn request(&self) -> (request: Option<SqliteRequest>)
        ensures
            match request {
                Some(SqliteRequest::Open) => self@ is Opening,
                Some(SqliteRequest::Execute(sql)) => self@ == SqliteView::Executing(sql@),
                None => self@ is Finished,
            },
    {
        match &self.state {
            SqliteState::Opening(_) => Some(SqliteRequest::Open),
            SqliteState::Executing(sql) => Some(SqliteRequest::Execute(sql.clone())),
            SqliteState::Finished(_) => None,
        }
    }

    /// Goes on with what came of the request; an error is given by its text.
    pub fn step(self, done: Result<(), String>) -> (job: SqliteJob)
        ensures
            match done {
                Ok(_) => job@ == sqlite_step(self@, Ok(())),
                Err(text) => job@ == sqlite_step(self@, Err(text@)),
            },
    {
        match (self.state, done) {
            (SqliteState::Finished(result), _) => SqliteJob {
                state: SqliteState::Finished(result),
            },
            (_, Err(text)) => SqliteJob {
                state: SqliteState::Finished(Err(BackupError::Snapshot(text))),
            },
            (SqliteState::Opening(sql), Ok(_)) => SqliteJob {
                state: SqliteState::Executing(sql),
            },
            (SqliteState::Executing(_), Ok(_)) => SqliteJob {
                state: SqliteState::Finished(Ok(())),
            },
        }
    }

    /// How the job ended, if it is over.
    pub fn outcome(self) -> (outcome: Option<Result<(), BackupError>>)
        ensures
            match outcome {
                Some(Ok(_)) => self@ == SqliteView::Finished(Ok(())),
                Some(Err(error)) => self@ == SqliteView::Finished(Err(error@)),
                None => !(self@ is Finished),
            },
    {
        match self.state {
            SqliteState::Finished(result) => Some(result),
            _ => None,
        }
    }
}

} // verus!
