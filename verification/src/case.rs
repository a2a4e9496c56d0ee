//! Case files: the statements that a case file holds, how they are read from
//! its text, and how each of them is run.

use crate::config::Config;
use crate::context::QueryContext;
use crate::error::{ErrorView, SqlnessError};
use crate::interceptor::{
    resolve, Delay, Directive, FactoryKind, Interceptor, InterceptorRef, Registry,
};
use crate::text::{
    concat, concat_strings, has_prefix, is_blank, is_whitespace, join, leading_whitespace,
    lemma_join_split, lemma_leading_whitespace_bound, lines, lines_of, push_chars, push_str,
    skip_whitespace, split, split_chars, starts_with, string_of, texts, to_chars, to_string,
    trim_start, views,
};
use vstd::prelude::*;

verus! {

/// What a comment starts with.
pub const COMMENT_PREFIX: &'static str = "--";

/// What ends a statement.
pub const QUERY_DELIMITER: char = ';';

/// One statement of a case file, as a value of mathematics.
pub struct Statement {
    /// The comments and directives before the statement, as they stand in
    /// the file.
    pub comment_lines: Seq<Seq<char>>,
    /// The statement as it is shown in the result file.
    pub display_query: Seq<Seq<char>>,
    /// The statement as it goes to the adapter.
    pub execute_query: Seq<Seq<char>>,
    /// What the directives before the statement attach to it, in their
    /// order.
    pub interceptors: Seq<Directive>,
}

impl Statement {
    /// The statement that holds nothing yet.
    pub open spec fn empty() -> Statement {
        Statement {
            comment_lines: Seq::empty(),
            display_query: Seq::empty(),
            execute_query: Seq::empty(),
            interceptors: Seq::empty(),
        }
    }

    /// The statement with one more comment or directive before it.
    pub open spec fn with_comment(self, line: Seq<char>) -> Statement {
        Statement { comment_lines: self.comment_lines.push(line), ..self }
    }

    /// The statement with one more interceptor attached to it.
    pub open spec fn with_interceptor(self, directive: Directive) -> Statement {
        Statement { interceptors: self.interceptors.push(directive), ..self }
    }

    /// The statement with one more line, shown and sent alike.
    pub open spec fn with_line(self, line: Seq<char>) -> Statement {
        Statement {
            display_query: self.display_query.push(line),
            execute_query: self.execute_query.push(line),
            ..self
        }
    }
}

/// What becomes of the statement that is being read when one more line of
/// the file is read: the statement that the line closes, if it closes one,
/// and the statement to go on with.
///
/// A line that starts with `marker` holds a directive: its text behind the
/// marker is resolved, and the line is kept as a comment. A line that starts
/// with `--` is a comment. An empty line is passed over. Any other line is a
/// line of the statement, which it closes if it ends with `;`; if not, a line
/// feed follows it in the statement.
pub open spec fn accept(
    current: Statement,
    line: Seq<char>,
    marker: Seq<char>,
    registry: Map<Seq<char>, FactoryKind>,
) -> Result<(Option<Statement>, Statement), ErrorView> {
    if starts_with(line, marker) {
        match resolve(registry, line.skip(marker.len() as int)) {
            Ok(directive) => Ok((None, current.with_comment(line).with_interceptor(directive))),
            Err(e) => Err(e),
        }
    } else if starts_with(line, COMMENT_PREFIX@) {
        Ok((None, current.with_comment(line)))
    } else if line.len() == 0 {
        Ok((None, current))
    } else if line.last() == QUERY_DELIMITER {
        Ok((Some(current.with_line(line)), Statement::empty()))
    } else {
        Ok((None, current.with_line(line).with_line(seq!['\n'])))
    }
}

/// The statements that the lines close, and the statement that is left
/// open behind them; or the failure of the first directive that cannot be
/// resolved.
pub open spec fn read(
    lines: Seq<Seq<char>>,
    marker: Seq<char>,
    registry: Map<Seq<char>, FactoryKind>,
) -> Result<(Seq<Statement>, Statement), ErrorView>
    decreases lines.len(),
{
    if lines.len() == 0 {
        Ok((Seq::empty(), Statement::empty()))
    } else {
        match read(lines.drop_last(), marker, registry) {
            Err(e) => Err(e),
            Ok((closed, current)) => match accept(current, lines.last(), marker, registry) {
                Err(e) => Err(e),
                Ok((None, next)) => Ok((closed, next)),
                Ok((Some(statement), next)) => Ok((closed.push(statement), next)),
            },
        }
    }
}

/// The statements of a case file. What stands behind the last `;` at the end
/// of a line belongs to no statement.
pub open spec fn statements(
    text: Seq<char>,
    marker: Seq<char>,
    registry: Map<Seq<char>, FactoryKind>,
) -> Result<Seq<Statement>, ErrorView> {
    match read(lines(text), marker, registry) {
        Ok((closed, _)) => Ok(closed),
        Err(e) => Err(e),
    }
}

/// The view of every interceptor in a sequence.
pub open spec fn directives(interceptors: Seq<InterceptorRef>) -> Seq<Directive> {
    Seq::new(interceptors.len(), |i: int| interceptors[i]@)
}

/// One statement of a case file, with what its directives attach to it.
pub struct Query<'a> {
    pub comment_lines: Vec<String>,
    /// Query to be displayed in the result file
    pub display_query: Vec<String>,
    /// Query to be executed
    pub execute_query: Vec<String>,
    pub interceptor_registry: &'a Registry,
    pub interceptors: Vec<InterceptorRef>,
}

impl<'a> View for Query<'a> {
    type V = Statement;

    open spec fn view(&self) -> Statement {
        Statement {
            comment_lines: views(self.comment_lines@),
            display_query: views(self.display_query@),
            execute_query: views(self.execute_query@),
            interceptors: directives(self.interceptors@),
        }
    }
}

impl<'a> Query<'a> {
    /// The statement that holds nothing yet, and that resolves its
    /// directives with `interceptor_registry`.
    pub fn with_interceptor_factories(interceptor_registry: &'a Registry) -> (r: Query<'a>)
        ensures
            r@ == Statement::empty(),
            r.interceptor_registry == interceptor_registry,
    {
        let r = Query {
            comment_lines: Vec::new(),
            display_query: Vec::new(),
            execute_query: Vec::new(),
            interceptor_registry,
            interceptors: Vec::new(),
        };
        proof {
            assert(views(r.comment_lines@) =~= Seq::empty());
            assert(views(r.display_query@) =~= Seq::empty());
            assert(views(r.execute_query@) =~= Seq::empty());
            assert(directives(r.interceptors@) =~= Seq::empty());
        }
        r
    }

    /// Attaches the interceptor that a directive line asks for: the line
    /// starts with `interceptor_prefix`, and what follows is resolved.
    pub fn push_interceptor(&mut self, interceptor_prefix: &str, interceptor_line: &str) -> (r:
        Result<(), SqlnessError>)
        ensures
            final(self).interceptor_registry == old(self).interceptor_registry,
            match r {
                Ok(()) => starts_with(interceptor_line@, interceptor_prefix@) && match resolve(
                    old(self).interceptor_registry@,
                    interceptor_line@.skip(interceptor_prefix@.len() as int),
                ) {
                    Ok(directive) => final(self)@ == old(self)@.with_interceptor(directive),
                    Err(_) => false,
                },
                Err(e) => final(self)@ == old(self)@ && if starts_with(
                    interceptor_line@,
                    interceptor_prefix@,
                ) {
                    resolve(
                        old(self).interceptor_registry@,
                        interceptor_line@.skip(interceptor_prefix@.len() as int),
                    ) == Err::<Directive, ErrorView>(e@)
                } else {
                    e@ == (ErrorView::MissingPrefix { line: interceptor_line@ })
                },
            },
    {
        let line = to_chars(interceptor_line);
        let prefix = to_chars(interceptor_prefix);
        proof {
            assert(line@.subrange(0, line@.len() as int) =~= line@);
        }
        if !has_prefix(&line, 0, line.len(), &prefix) {
            return Err(SqlnessError::MissingPrefix { line: interceptor_line.to_owned() });
        }
        let rest = to_string(&line, prefix.len(), line.len());
        proof {
            assert(line@.subrange(prefix@.len() as int, line@.len() as int) =~= line@.skip(
                prefix@.len() as int,
            ));
        }
        match self.interceptor_registry.create(rest.as_str()) {
            Ok(interceptor) => {
                let ghost before = directives(self.interceptors@);
                self.interceptors.push(interceptor);
                proof {
                    assert(directives(self.interceptors@) =~= before.push(interceptor@));
                }
                Ok(())
            },
            Err(e) => Err(e),
        }
    }

    /// Keeps a comment or a directive as it stands in the file.
    pub fn push_comment(&mut self, comment_line: String)
        ensures
            final(self)@ == old(self)@.with_comment(comment_line@),
            final(self).interceptor_registry == old(self).interceptor_registry,
    {
        let ghost before = views(self.comment_lines@);
        self.comment_lines.push(comment_line);
        proof {
            assert(views(self.comment_lines@) =~= before.push(comment_line@));
        }
    }

    /// Adds a line to the statement, as it is shown and as it is sent.
    pub fn append_query_line(&mut self, line: &str)
        ensures
            final(self)@ == old(self)@.with_line(line@),
            final(self).interceptor_registry == old(self).interceptor_registry,
    {
        let ghost shown = views(self.display_query@);
        let ghost sent = views(self.execute_query@);
        self.display_query.push(line.to_owned());
        self.execute_query.push(line.to_owned());
        proof {
            assert(views(self.display_query@) =~= shown.push(line@));
            assert(views(self.execute_query@) =~= sent.push(line@));
        }
    }
}

/// The view of every statement in a sequence.
pub open spec fn statement_views(queries: Seq<Query>) -> Seq<Statement> {
    Seq::new(queries.len(), |i: int| queries[i]@)
}

/// A case: the statements of one case file, under its name.
pub struct TestCase<'a> {
    pub name: String,
    pub queries: Vec<Query<'a>>,
}

impl<'a> TestCase<'a> {
    /// The case that the text of a case file holds.
    pub fn from_text(name: &str, text: &str, cfg: &'a Config) -> (r: Result<
        TestCase<'a>,
        SqlnessError,
    >)
        ensures
            match r {
                Ok(case) => case.name@ == name@ && statements(
                    text@,
                    cfg.interceptor_prefix@,
                    cfg.interceptor_registry@,
                ) == Ok::<Seq<Statement>, ErrorView>(statement_views(case.queries@)),
                Err(e) => statements(text@, cfg.interceptor_prefix@, cfg.interceptor_registry@)
                    == Err::<Seq<Statement>, ErrorView>(e@),
            },
    {
        let all = lines_of(&to_chars(text));
        let marker = to_chars(cfg.interceptor_prefix.as_str());
        let comment = to_chars(COMMENT_PREFIX);
        let registry = &cfg.interceptor_registry;
        let mut queries: Vec<Query<'a>> = Vec::new();
        let mut query = Query::with_interceptor_factories(registry);
        let mut i: usize = 0;
        proof {
            assert(texts(all@).take(0) =~= Seq::empty());
            assert(statement_views(queries@) =~= Seq::empty());
        }
        while i < all.len()
            invariant
                i <= all.len(),
                texts(all@) == lines(text@),
                marker@ == cfg.interceptor_prefix@,
                comment@ == COMMENT_PREFIX@,
                registry == &cfg.interceptor_registry,
                query.interceptor_registry == registry,
                read(texts(all@).take(i as int), marker@, registry@) == Ok::<
                    (Seq<Statement>, Statement),
                    ErrorView,
                >((statement_views(queries@), query@)),
            decreases all.len() - i,
        {
            let chars = &all[i];
            let n = chars.len();
            let line = string_of(chars);
            proof {
                assert(texts(all@).take(i + 1).drop_last() =~= texts(all@).take(i as int));
                assert(texts(all@).take(i + 1).last() == line@);
                assert(chars@.subrange(0, n as int) =~= chars@);
            }
            if has_prefix(chars, 0, n, &marker) {
                match query.push_interceptor(cfg.interceptor_prefix.as_str(), line.as_str()) {
                    Ok(()) => {},
                    Err(e) => {
                        proof {
                            lemma_read_fails(texts(all@), i + 1, marker@, registry@);
                        }
                        return Err(e);
                    },
                }
                query.push_comment(line);
                proof {
                    let d = query@.interceptors.last();
                    assert(query@.interceptors.drop_last().push(d) =~= query@.interceptors);
                }
            } else if has_prefix(chars, 0, n, &comment) {
                query.push_comment(line);
            } else if n == 0 {
            } else {
                query.append_query_line(line.as_str());
                if chars[n - 1] == QUERY_DELIMITER {
                    let ghost before = statement_views(queries@);
                    let ghost closed = query@;
                    queries.push(query);
                    proof {
                        assert(statement_views(queries@) =~= before.push(closed));
                    }
                    query = Query::with_interceptor_factories(registry);
                } else {
                    query.append_query_line("\n");
                    proof {
                        reveal_strlit("\n");
                        assert("\n"@ =~= seq!['\n']);
                    }
                }
            }
            i = i + 1;
        }
        proof {
            assert(texts(all@).take(i as int) =~= texts(all@));
        }
        Ok(TestCase { name: name.to_owned(), queries })
    }
}

/// Once a directive has failed, reading more lines changes nothing.
pub proof fn lemma_read_fails(
    lines: Seq<Seq<char>>,
    k: int,
    marker: Seq<char>,
    registry: Map<Seq<char>, FactoryKind>,
)
    requires
        0 <= k <= lines.len(),
        read(lines.take(k), marker, registry) is Err,
    ensures
        read(lines, marker, registry) == read(lines.take(k), marker, registry),
    decreases lines.len() - k,
{
    if k < lines.len() {
        assert(lines.take(k + 1).drop_last() =~= lines.take(k));
        lemma_read_fails(lines, k + 1, marker, registry);
    } else {
        assert(lines.take(k) =~= lines);
    }
}

/// The lines after the pre-execution hooks of all the interceptors, each
/// hook seeing what the hooks before it made of the lines.
pub open spec fn rewritten_by(interceptors: Seq<Directive>, lines: Seq<Seq<char>>) -> Seq<
    Seq<char>,
>
    decreases interceptors.len(),
{
    if interceptors.len() == 0 {
        lines
    } else {
        interceptors.last().rewritten(rewritten_by(interceptors.drop_last(), lines))
    }
}

/// The context after the pre-execution hooks of all the interceptors.
pub open spec fn enriched_by(
    interceptors: Seq<Directive>,
    context: Map<Seq<char>, Seq<char>>,
) -> Map<Seq<char>, Seq<char>>
    decreases interceptors.len(),
{
    if interceptors.len() == 0 {
        context
    } else {
        interceptors.last().enriched(enriched_by(interceptors.drop_last(), context))
    }
}

/// The result after the post-execution hooks of all the interceptors, each
/// hook seeing what the hooks before it made of the result.
pub open spec fn processed_by(interceptors: Seq<Directive>, result: Seq<char>) -> Seq<char>
    decreases interceptors.len(),
{
    if interceptors.len() == 0 {
        result
    } else {
        interceptors.last().processed(processed_by(interceptors.drop_last(), result))
    }
}

/// The pauses that the interceptors ask for, in their order, in
/// nanoseconds; an interceptor that asks for none gives none.
pub open spec fn pauses_of(interceptors: Seq<Directive>) -> Seq<nat>
    decreases interceptors.len(),
{
    if interceptors.len() == 0 {
        Seq::empty()
    } else if interceptors.last().pause() == 0 {
        pauses_of(interceptors.drop_last())
    } else {
        pauses_of(interceptors.drop_last()).push(interceptors.last().pause())
    }
}

/// What goes to the adapter of the pieces between the delimiters: each piece
/// that is not blank, with the delimiter behind it.
pub open spec fn submitted(pieces: Seq<Seq<char>>) -> Seq<Seq<char>>
    decreases pieces.len(),
{
    if pieces.len() == 0 {
        Seq::empty()
    } else if is_blank(pieces.last()) {
        submitted(pieces.drop_last())
    } else {
        submitted(pieces.drop_last()).push(pieces.last().push(QUERY_DELIMITER))
    }
}

/// The fragments in which the lines go to the adapter: the lines are put
/// together, what whitespace they start with is dropped, and the text is cut
/// at every delimiter.
pub open spec fn fragments(lines: Seq<Seq<char>>) -> Seq<Seq<char>> {
    submitted(split(trim_start(concat(lines)), QUERY_DELIMITER))
}

/// Each line with a line feed behind it.
pub open spec fn terminated(lines: Seq<Seq<char>>) -> Seq<char>
    decreases lines.len(),
{
    if lines.len() == 0 {
        Seq::empty()
    } else {
        terminated(lines.drop_last()) + lines.last().push('\n')
    }
}

/// What is written for one result: the result and an empty line.
pub open spec fn record(result: Seq<char>) -> Seq<char> {
    result + seq!['\n', '\n']
}

/// What is written for all the results, each after its post-execution
/// hooks.
pub open spec fn records(interceptors: Seq<Directive>, results: Seq<Seq<char>>) -> Seq<char>
    decreases results.len(),
{
    if results.len() == 0 {
        Seq::empty()
    } else {
        records(interceptors, results.drop_last()) + record(
            processed_by(interceptors, results.last()),
        )
    }
}

impl Statement {
    /// What is written before the results: the comments and directives, one
    /// per line, the statement as it is shown, and an empty line.
    pub open spec fn header(self) -> Seq<char> {
        terminated(self.comment_lines) + concat(self.display_query) + seq!['\n', '\n']
    }

    /// What a run of the statement writes when the adapter answers with
    /// `results`, one for each fragment.
    pub open spec fn transcript(self, results: Seq<Seq<char>>) -> Seq<char> {
        self.header() + records(self.interceptors, results)
    }

    /// The statement after its pre-execution hooks.
    pub open spec fn prepared(self) -> Statement {
        Statement { execute_query: rewritten_by(self.interceptors, self.execute_query), ..self }
    }

    /// Where the run of the statement starts, once its pre-execution hooks
    /// have run.
    pub open spec fn begin(self) -> ExecutionView {
        ExecutionView {
            pauses: pauses_of(self.interceptors),
            context: enriched_by(self.interceptors, Map::empty()),
            fragments: fragments(rewritten_by(self.interceptors, self.execute_query)),
            paused: 0,
            announced: false,
            awaiting: false,
            answered: 0,
            answers: Seq::empty(),
            output: Seq::empty(),
        }
    }

    /// One move of the run: the state that follows `state` when the host
    /// comes back with `answer`, and what the host is to do next.
    ///
    /// An answer that was asked for is recorded. Then the pauses are handed
    /// out, one at a move; after the last one the header is written, and
    /// the fragments are sent, one at a move, each once the answer to the one
    /// before it is there. A host that comes back without the answer is
    /// asked for it again.
    pub open spec fn step(self, state: ExecutionView, answer: Option<Seq<char>>) -> (
        ExecutionView,
        ActionView,
    ) {
        let waiting = state.awaiting && state.answered < state.fragments.len();
        let heard = match answer {
            Some(result) if waiting => ExecutionView {
                awaiting: false,
                answered: state.answered + 1,
                answers: state.answers.push(result),
                output: state.output + record(processed_by(self.interceptors, result)),
                ..state
            },
            _ => ExecutionView { awaiting: waiting, ..state },
        };
        if heard.awaiting {
            (heard, ActionView::Submit(heard.context, heard.fragments[heard.answered as int]))
        } else if heard.paused < heard.pauses.len() {
            (
                ExecutionView { paused: heard.paused + 1, ..heard },
                ActionView::Pause(heard.pauses[heard.paused as int]),
            )
        } else {
            let shown = ExecutionView {
                announced: true,
                output: if heard.announced {
                    heard.output
                } else {
                    heard.output + self.header()
                },
                ..heard
            };
            if shown.answered < shown.fragments.len() {
                (
                    ExecutionView { awaiting: true, ..shown },
                    ActionView::Submit(shown.context, shown.fragments[shown.answered as int]),
                )
            } else {
                (shown, ActionView::Finished)
            }
        }
    }
}

/// What the host is to do next.
#[derive(Debug)]
pub enum Action {
    /// Wait for no less than this time, then come back.
    Pause(Delay),
    /// Send the statement with its context to the adapter, then come back
    /// with the answer as text.
    Submit(QueryContext, String),
    /// Nothing: the statement is done, and its output is complete.
    Finished,
}

/// What the host is to do next, as a value of mathematics.
pub enum ActionView {
    Pause(nat),
    Submit(Map<Seq<char>, Seq<char>>, Seq<char>),
    Finished,
}

impl View for Action {
    type V = ActionView;

    open spec fn view(&self) -> ActionView {
        match *self {
            Action::Pause(delay) => ActionView::Pause(delay.total_nanos()),
            Action::Submit(context, query) => ActionView::Submit(context@, query@),
            Action::Finished => ActionView::Finished,
        }
    }
}

/// How far the run of a statement has come.
pub struct Execution {
    /// The pauses to hand out before anything is sent.
    pub pauses: Vec<Delay>,
    /// What goes to the adapter with every fragment.
    pub context: QueryContext,
    /// What goes to the adapter, in order.
    pub fragments: Vec<String>,
    /// How many pauses have been handed out.
    pub paused: usize,
    /// Whether the header is written.
    pub announced: bool,
    /// Whether a fragment is with the adapter.
    pub awaiting: bool,
    /// How many answers have been recorded.
    pub answered: usize,
    /// The answers that have been recorded.
    pub answers: Ghost<Seq<Seq<char>>>,
    /// What has been written.
    pub output: String,
}

/// How far the run of a statement has come, as a value of mathematics.
pub struct ExecutionView {
    pub pauses: Seq<nat>,
    pub context: Map<Seq<char>, Seq<char>>,
    pub fragments: Seq<Seq<char>>,
    pub paused: nat,
    pub announced: bool,
    pub awaiting: bool,
    pub answered: nat,
    pub answers: Seq<Seq<char>>,
    pub output: Seq<char>,
}

/// Each span in nanoseconds.
pub open spec fn spans(pauses: Seq<Delay>) -> Seq<nat> {
    Seq::new(pauses.len(), |i: int| pauses[i].total_nanos())
}

impl View for Execution {
    type V = ExecutionView;

    open spec fn view(&self) -> ExecutionView {
        ExecutionView {
            pauses: spans(self.pauses@),
            context: self.context@,
            fragments: views(self.fragments@),
            paused: self.paused as nat,
            announced: self.announced,
            awaiting: self.awaiting,
            answered: self.answered as nat,
            answers: self.answers@,
            output: self.output@,
        }
    }
}

/// The fragments in which `text` goes to the adapter.
pub fn split_statements(text: &Vec<char>, from: usize) -> (r: Vec<String>)
    requires
        from <= text.len(),
    ensures
        views(r@) == submitted(split(text@.skip(from as int), QUERY_DELIMITER)),
{
    proof {
        assert(text@.subrange(from as int, text@.len() as int) =~= text@.skip(from as int));
    }
    let pieces = split_chars(text, from, text.len(), QUERY_DELIMITER);
    let mut r: Vec<String> = Vec::new();
    let mut i: usize = 0;
    proof {
        assert(texts(pieces@).take(0) =~= Seq::empty());
        assert(views(r@) =~= Seq::empty());
    }
    while i < pieces.len()
        invariant
            i <= pieces.len(),
            views(r@) == submitted(texts(pieces@).take(i as int)),
        decreases pieces.len() - i,
    {
        let piece = &pieces[i];
        let n = piece.len();
        proof {
            assert(texts(pieces@).take(i + 1).drop_last() =~= texts(pieces@).take(i as int));
            assert(texts(pieces@).take(i + 1).last() == piece@);
            assert(piece@.subrange(0, n as int) =~= piece@);
        }
        let k = skip_whitespace(piece, 0, n);
        proof {
            if k == n {
                lemma_leading_whitespace_bound(piece@);
            } else {
                lemma_leading_whitespace_bound(piece@);
                assert(!is_whitespace(piece@[k as int]));
            }
        }
        if k < n {
            let mut fragment = string_of(piece);
            fragment.push(QUERY_DELIMITER);
            let ghost before = views(r@);
            r.push(fragment);
            proof {
                assert(views(r@) =~= before.push(fragment@));
            }
        }
        i = i + 1;
    }
    proof {
        assert(texts(pieces@).take(i as int) =~= texts(pieces@));
    }
    r
}

impl<'a> Query<'a> {
    /// Run pre-execution interceptors.
    ///
    /// Interceptors may change the query to be executed, never the query to
    /// be displayed, and fill the context that is returned.
    pub fn before_execute_intercept(&mut self) -> (context: QueryContext)
        ensures
            final(self)@ == old(self)@.prepared(),
            final(self).interceptor_registry == old(self).interceptor_registry,
            context@ == enriched_by(old(self)@.interceptors, Map::empty()),
    {
        let mut context = QueryContext::new();
        let ghost all = directives(self.interceptors@);
        let ghost lines = views(self.execute_query@);
        let mut i: usize = 0;
        proof {
            assert(all.take(0) =~= Seq::empty());
        }
        while i < self.interceptors.len()
            invariant
                i <= self.interceptors.len(),
                self.interceptors == old(self).interceptors,
                self.comment_lines == old(self).comment_lines,
                self.display_query == old(self).display_query,
                self.interceptor_registry == old(self).interceptor_registry,
                all == directives(self.interceptors@),
                views(self.execute_query@) == rewritten_by(all.take(i as int), lines),
                context@ == enriched_by(all.take(i as int), Map::empty()),
            decreases self.interceptors.len() - i,
        {
            self.interceptors[i].before_execute(&mut self.execute_query, &mut context);
            proof {
                assert(all.take(i + 1).drop_last() =~= all.take(i as int));
                assert(all.take(i + 1).last() == self.interceptors@[i as int]@);
            }
            i = i + 1;
        }
        proof {
            assert(all.take(i as int) =~= all);
        }
        context
    }

    /// Run post-execution interceptors on one result.
    pub fn after_execute_intercept(&self, result: &mut String)
        ensures
            final(result)@ == processed_by(self@.interceptors, old(result)@),
    {
        let ghost all = directives(self.interceptors@);
        let ghost raw = result@;
        let mut i: usize = 0;
        proof {
            assert(all.take(0) =~= Seq::empty());
        }
        while i < self.interceptors.len()
            invariant
                i <= self.interceptors.len(),
                all == directives(self.interceptors@),
                result@ == processed_by(all.take(i as int), raw),
            decreases self.interceptors.len() - i,
        {
            self.interceptors[i].after_execute(result);
            proof {
                assert(all.take(i + 1).drop_last() =~= all.take(i as int));
                assert(all.take(i + 1).last() == self.interceptors@[i as int]@);
            }
            i = i + 1;
        }
        proof {
            assert(all.take(i as int) =~= all);
        }
    }

    /// The pauses that the interceptors ask for.
    pub fn pauses(&self) -> (r: Vec<Delay>)
        ensures
            spans(r@) == pauses_of(self@.interceptors),
    {
        let mut r: Vec<Delay> = Vec::new();
        let ghost all = directives(self.interceptors@);
        let mut i: usize = 0;
        proof {
            assert(all.take(0) =~= Seq::empty());
            assert(spans(r@) =~= Seq::empty());
        }
        while i < self.interceptors.len()
            invariant
                i <= self.interceptors.len(),
                all == directives(self.interceptors@),
                spans(r@) == pauses_of(all.take(i as int)),
            decreases self.interceptors.len() - i,
        {
            let delay = self.interceptors[i].delay();
            proof {
                assert(all.take(i + 1).drop_last() =~= all.take(i as int));
                assert(all.take(i + 1).last() == self.interceptors@[i as int]@);
            }
            if !delay.is_zero() {
                let ghost before = spans(r@);
                r.push(delay);
                proof {
                    assert(spans(r@) =~= before.push(delay.total_nanos()));
                }
            }
            i = i + 1;
        }
        proof {
            assert(all.take(i as int) =~= all);
        }
        r
    }

    /// Concat the query to be executed to a single string, without the
    /// whitespace that it starts with.
    pub fn concat_query_lines(&self) -> (r: String)
        ensures
            r@ == trim_start(concat(self@.execute_query)),
    {
        let text = concat_strings(&self.execute_query);
        proof {
            assert(text@.subrange(0, text@.len() as int) =~= text@);
        }
        let k = skip_whitespace(&text, 0, text.len());
        proof {
            assert(text@.subrange(k as int, text@.len() as int) =~= text@.skip(k as int));
        }
        to_string(&text, k, text.len())
    }

    /// Writes what precedes the results of the statement.
    pub fn write_header(&self, writer: &mut String)
        ensures
            final(writer)@ == old(writer)@ + self@.header(),
    {
        let mut out: Vec<char> = Vec::new();
        let mut i: usize = 0;
        let ghost comments = views(self.comment_lines@);
        proof {
            assert(comments.take(0) =~= Seq::empty());
        }
        while i < self.comment_lines.len()
            invariant
                i <= self.comment_lines.len(),
                comments == views(self.comment_lines@),
                out@ == terminated(comments.take(i as int)),
            decreases self.comment_lines.len() - i,
        {
            let ghost before = out@;
            push_str(&mut out, self.comment_lines[i].as_str());
            out.push('\n');
            proof {
                assert(comments.take(i + 1).drop_last() =~= comments.take(i as int));
                assert(comments.take(i + 1).last() == self.comment_lines@[i as int]@);
                assert(out@ =~= before + self.comment_lines@[i as int]@.push('\n'));
            }
            i = i + 1;
        }
        proof {
            assert(comments.take(i as int) =~= comments);
        }
        let shown = concat_strings(&self.display_query);
        push_chars(&mut out, &shown);
        out.push('\n');
        out.push('\n');
        proof {
            assert(out@ =~= self@.header());
        }
        writer.append(string_of(&out).as_str());
    }

    /// Writes one result, as it is after the post-execution hooks.
    pub fn write_result(&self, writer: &mut String, result: String)
        ensures
            final(writer)@ == old(writer)@ + record(result@),
    {
        let ghost before = writer@;
        writer.append(result.as_str());
        writer.push('\n');
        writer.push('\n');
        proof {
            assert(writer@ =~= before + record(result@));
        }
    }

    /// Starts the run of the statement: runs the pre-execution hooks and
    /// lays out what is to be done.
    pub fn begin(&mut self) -> (run: Execution)
        ensures
            final(self)@ == old(self)@.prepared(),
            final(self).interceptor_registry == old(self).interceptor_registry,
            run@ == old(self)@.begin(),
    {
        let context = self.before_execute_intercept();
        let pauses = self.pauses();
        let text = concat_strings(&self.execute_query);
        proof {
            assert(text@.subrange(0, text@.len() as int) =~= text@);
        }
        let k = skip_whitespace(&text, 0, text.len());
        let fragments = split_statements(&text, k);
        Execution {
            pauses,
            context,
            fragments,
            paused: 0,
            announced: false,
            awaiting: false,
            answered: 0,
            answers: Ghost(Seq::empty()),
            output: String::new(),
        }
    }

    /// One move of the run: takes the answer that the host comes back with,
    /// where it was asked for one, and says what the host is to do next.
    pub fn step(&self, run: &mut Execution, answer: Option<String>) -> (action: Action)
        ensures
            (final(run)@, action@) == self@.step(
                old(run)@,
                match answer {
                    Some(result) => Some(result@),
                    None => None,
                },
            ),
    {
        let waiting = run.awaiting && run.answered < run.fragments.len();
        run.awaiting = waiting;
        if waiting {
            match answer {
                Some(result) => {
                    let mut result = result;
                    let ghost raw = result@;
                    self.after_execute_intercept(&mut result);
                    self.write_result(&mut run.output, result);
                    run.awaiting = false;
                    run.answered = run.answered + 1;
                    run.answers = Ghost(run.answers@.push(raw));
                },
                None => {},
            }
        }
        if run.awaiting {
            return Action::Submit(run.context.duplicate(), run.fragments[run.answered].clone());
        }
        if run.paused < run.pauses.len() {
            let delay = run.pauses[run.paused];
            run.paused = run.paused + 1;
            return Action::Pause(delay);
        }
        if !run.announced {
            self.write_header(&mut run.output);
            run.announced = true;
        }
        if run.answered < run.fragments.len() {
            run.awaiting = true;
            Action::Submit(run.context.duplicate(), run.fragments[run.answered].clone())
        } else {
            Action::Finished
        }
    }
}

/// The statements as they are shown, each with a line feed behind it.
pub open spec fn shown(statements: Seq<Statement>) -> Seq<char>
    decreases statements.len(),
{
    if statements.len() == 0 {
        Seq::empty()
    } else {
        shown(statements.drop_last()) + concat(statements.last().display_query).push('\n')
    }
}

/// Whether a statement is as the lines of the file give it: nothing is
/// attached to it, and it is sent as it is shown.
pub open spec fn plain(statement: Statement) -> bool {
    &&& statement.comment_lines.len() == 0
    &&& statement.interceptors.len() == 0
    &&& statement.execute_query == statement.display_query
}

/// Reading keeps the text: where no line of a file is empty, a comment or a
/// directive, the statements that are read, as they are shown, are the lines
/// of the file; what is left open is the lines behind the last statement.
/// Nothing is attached to such a statement, and it is sent as it is shown.
pub proof fn lemma_reading_keeps_the_text(
    lines: Seq<Seq<char>>,
    marker: Seq<char>,
    registry: Map<Seq<char>, FactoryKind>,
)
    requires
        forall|i: int|
            0 <= i < lines.len() ==> (#[trigger] lines[i]).len() > 0 && !starts_with(
                lines[i],
                marker,
            ) && !starts_with(lines[i], COMMENT_PREFIX@),
    ensures
        read(lines, marker, registry) matches Ok((closed, open)) && shown(closed) + concat(
            open.display_query,
        ) == terminated(lines) && plain(open) && forall|k: int|
            0 <= k < closed.len() ==> plain(#[trigger] closed[k]),
    decreases lines.len(),
{
    if lines.len() == 0 {
        assert(concat(Statement::empty().display_query) =~= Seq::<char>::empty());
        assert(shown(Seq::<Statement>::empty()) + Seq::<char>::empty() =~= terminated(lines));
    } else {
        let front = lines.drop_last();
        let line = lines.last();
        assert forall|i: int| 0 <= i < front.len() implies (#[trigger] front[i]).len() > 0
            && !starts_with(front[i], marker) && !starts_with(front[i], COMMENT_PREFIX@) by {
            assert(front[i] == lines[i]);
        }
        lemma_reading_keeps_the_text(front, marker, registry);
        let (closed, open) = read(front, marker, registry)->Ok_0;
        assert(lines[lines.len() - 1] == line);
        let with_line = open.with_line(line);
        assert(with_line.display_query.drop_last() =~= open.display_query);
        assert(concat(with_line.display_query) == concat(open.display_query) + line);
        if line.last() == QUERY_DELIMITER {
            let all = closed.push(with_line);
            assert(all.drop_last() =~= closed);
            assert(concat(Statement::empty().display_query) =~= Seq::<char>::empty());
            assert(shown(all) + Seq::<char>::empty() =~= shown(closed) + concat(
                open.display_query,
            ) + line.push('\n'));
            assert(shown(closed) + concat(open.display_query) + line.push('\n') =~= terminated(
                front,
            ) + line.push('\n'));
        } else {
            let next = with_line.with_line(seq!['\n']);
            assert(next.display_query.drop_last() =~= with_line.display_query);
            assert(concat(next.display_query) == concat(with_line.display_query) + seq!['\n']);
            assert(shown(closed) + concat(next.display_query) =~= shown(closed) + concat(
                open.display_query,
            ) + line.push('\n'));
            assert(shown(closed) + concat(open.display_query) + line.push('\n') =~= terminated(
                front,
            ) + line.push('\n'));
        }
    }
}

/// Where no piece is blank, what is sent is the pieces with a delimiter
/// behind each.
proof fn lemma_submitted_all(pieces: Seq<Seq<char>>)
    requires
        pieces.len() >= 1,
        forall|i: int| 0 <= i < pieces.len() ==> !is_blank(#[trigger] pieces[i]),
    ensures
        concat(submitted(pieces)) == join(pieces, seq![QUERY_DELIMITER]).push(QUERY_DELIMITER),
    decreases pieces.len(),
{
    let front = pieces.drop_last();
    let last = pieces.last();
    assert(!is_blank(pieces[pieces.len() - 1]));
    if pieces.len() == 1 {
        assert(submitted(front) =~= Seq::<Seq<char>>::empty());
        let sent = submitted(pieces);
        assert(sent =~= seq![last.push(QUERY_DELIMITER)]);
        assert(sent.drop_last() =~= Seq::<Seq<char>>::empty());
        assert(concat(sent.drop_last()) =~= Seq::<char>::empty());
        assert(concat(sent) =~= last.push(QUERY_DELIMITER));
    } else {
        assert forall|i: int| 0 <= i < front.len() implies !is_blank(#[trigger] front[i]) by {
            assert(front[i] == pieces[i]);
        }
        lemma_submitted_all(front);
        let sent = submitted(pieces);
        assert(sent.drop_last() =~= submitted(front));
        assert(concat(sent) =~= join(pieces, seq![QUERY_DELIMITER]).push(QUERY_DELIMITER));
    }
}

/// An adapter that answers with what it is sent gives the statement back:
/// what goes to it, one fragment after the other, is the text of the
/// statement, where that text ends with a delimiter and holds nothing blank
/// between delimiters or before the first one.
pub proof fn lemma_echo_reproduces_statement(lines: Seq<Seq<char>>)
    requires
        leading_whitespace(concat(lines)) == 0,
        split(concat(lines), QUERY_DELIMITER).last().len() == 0,
        forall|i: int|
            0 <= i < split(concat(lines), QUERY_DELIMITER).len() - 1 ==> !is_blank(
                #[trigger] split(concat(lines), QUERY_DELIMITER)[i],
            ),
    ensures
        concat(fragments(lines)) == concat(lines),
{
    let text = concat(lines);
    assert(trim_start(text) =~= text);
    let pieces = split(text, QUERY_DELIMITER);
    lemma_join_split(text, QUERY_DELIMITER);
    let front = pieces.drop_last();
    assert(is_blank(pieces.last()));
    if front.len() == 0 {
        assert(pieces.len() == 1);
        assert(join(pieces, seq![QUERY_DELIMITER]) == pieces[0]);
        assert(submitted(front) =~= Seq::<Seq<char>>::empty());
        assert(concat(submitted(pieces)) =~= text);
    } else {
        assert forall|i: int| 0 <= i < front.len() implies !is_blank(#[trigger] front[i]) by {
            assert(front[i] == pieces[i]);
        }
        lemma_submitted_all(front);
        assert(join(pieces, seq![QUERY_DELIMITER]) =~= join(front, seq![QUERY_DELIMITER]).push(
            QUERY_DELIMITER,
        ));
    }
}

impl ExecutionView {
    /// What holds of every state of a run of `statement`: what is written is
    /// the header, once the pauses are over, and the records of the answers
    /// so far; and a fragment is with the adapter only once the header is
    /// written.
    pub open spec fn consistent(self, statement: Statement) -> bool {
        &&& self.paused <= self.pauses.len()
        &&& self.answered == self.answers.len()
        &&& self.answered <= self.fragments.len()
        &&& self.awaiting ==> self.announced && self.answered < self.fragments.len()
        &&& self.announced ==> self.paused == self.pauses.len()
        &&& !self.announced ==> self.answered == 0
        &&& self.output == if self.announced {
            statement.transcript(self.answers)
        } else {
            Seq::<char>::empty()
        }
    }
}

/// A run starts in a consistent state.
pub proof fn lemma_begin_is_consistent(statement: Statement)
    ensures
        statement.begin().consistent(statement),
{
}

/// A move keeps the state consistent; it takes no answer that was not
/// asked for; and when it says that the statement is done, every fragment
/// has its answer and what is written is the transcript of the answers.
pub proof fn lemma_step_is_consistent(
    statement: Statement,
    state: ExecutionView,
    answer: Option<Seq<char>>,
)
    requires
        state.consistent(statement),
    ensures
        statement.step(state, answer).0.consistent(statement),
        statement.step(state, answer).0.pauses == state.pauses,
        statement.step(state, answer).0.fragments == state.fragments,
        statement.step(state, answer).0.context == state.context,
        !state.awaiting ==> statement.step(state, answer).0.answers == state.answers,
        statement.step(state, answer).1 is Finished ==> {
            let end = statement.step(state, answer).0;
            &&& end.answers.len() == end.fragments.len()
            &&& end.output == statement.transcript(end.answers)
        },
{
    let waiting = state.awaiting && state.answered < state.fragments.len();
    match answer {
        Some(result) if waiting => {
            let answers = state.answers.push(result);
            assert(answers.drop_last() =~= state.answers);
            assert(statement.transcript(answers) =~= statement.transcript(state.answers) + record(
                processed_by(statement.interceptors, result),
            ));
        },
        _ => {},
    }
    let next = statement.step(state, answer).0;
    if !state.announced && next.announced {
        assert(state.answers.len() == 0);
        assert(records(statement.interceptors, state.answers) =~= Seq::<char>::empty());
        assert(statement.transcript(state.answers) =~= Seq::<char>::empty()
            + statement.header());
    }
}

/// Whether a statement is closed: it has a line, and its last line ends
/// with the delimiter.
pub open spec fn closed(statement: Statement) -> bool {
    &&& statement.display_query.len() > 0
    &&& statement.execute_query.len() > 0
    &&& statement.display_query.last().len() > 0
    &&& statement.display_query.last().last() == QUERY_DELIMITER
    &&& statement.execute_query.last() == statement.display_query.last()
}

/// Every statement of a case file is closed: none is without a line, and
/// each ends with the delimiter.
pub proof fn lemma_statements_are_closed(
    lines: Seq<Seq<char>>,
    marker: Seq<char>,
    registry: Map<Seq<char>, FactoryKind>,
)
    ensures
        read(lines, marker, registry) matches Ok((statements, _)) ==> forall|k: int|
            0 <= k < statements.len() ==> closed(#[trigger] statements[k]),
    decreases lines.len(),
{
    if lines.len() > 0 {
        lemma_statements_are_closed(lines.drop_last(), marker, registry);
    }
}

} // verus!
