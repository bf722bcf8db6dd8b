//! From source text to what running it shows: scanning, parsing and
//! execution in one pass.

use crate::environment::{Environment, Scopes};
use crate::error::{LoxError, LoxErrorView, RuntimeError, RuntimeErrorView};
use crate::expr::{governs, total, Arithmetic, BinaryOp, Literal, Value};
use crate::grammar;
use crate::lexemes;
use crate::lexemes::NumberReader;
use crate::parser::{program_outcome, Parser};
use crate::scanner::{error_views, has_digit, interprets, reads_all, Scanner};
use crate::stmt::{execute, stmt_has_arithmetic, value_views, StmtView};
use vstd::prelude::*;
use vstd::string::StrSliceExecFns;

verus! {

/// Something that a run shows to whoever started it.
#[derive(Debug, PartialEq, Eq)]
pub enum Event {
    /// A `print` statement printed this value.
    Printed(Literal),
    /// The scanner or the parser found this error.
    SyntaxError(LoxError),
    /// A statement failed with this error.
    RuntimeError(RuntimeError),
}

/// Mathematical model of an [`Event`].
pub enum EventView {
    Printed(Value),
    SyntaxError(LoxErrorView),
    RuntimeError(RuntimeErrorView),
}

impl View for Event {
    type V = EventView;

    open spec fn view(&self) -> EventView {
        match self {
            Event::Printed(value) => EventView::Printed(value@),
            Event::SyntaxError(error) => EventView::SyntaxError(error@),
            Event::RuntimeError(error) => EventView::RuntimeError(error@),
        }
    }
}

/// The models of a sequence of events, in order.
pub open spec fn event_views(events: Seq<Event>) -> Seq<EventView> {
    Seq::new(events.len(), |i: int| events[i]@)
}

/// The events of the errors found before execution, in order.
pub open spec fn syntax_events(errors: Seq<LoxErrorView>) -> Seq<EventView> {
    Seq::new(errors.len(), |i: int| EventView::SyntaxError(errors[i]))
}

/// The events of the values printed, in order.
pub open spec fn print_events(values: Seq<Value>) -> Seq<EventView> {
    Seq::new(values.len(), |i: int| EventView::Printed(values[i]))
}

/// The events of the declarations from the `i`-th on. A declaration that
/// was not parsed shows its syntax error. One that was parsed is executed
/// in the scopes that the ones before it left, and shows what it prints
/// and, where it fails, its error: the declarations after it are executed
/// all the same.
pub open spec fn declaration_events(
    k: Arithmetic,
    parsed: Seq<Result<StmtView, LoxErrorView>>,
    i: int,
    scopes: Scopes,
) -> Seq<EventView>
    decreases parsed.len() - i,
{
    if 0 <= i < parsed.len() {
        match parsed[i] {
            Err(error) => seq![EventView::SyntaxError(error)] + declaration_events(
                k,
                parsed,
                i + 1,
                scopes,
            ),
            Ok(stmt) => {
                let executed = execute(k, stmt, scopes, Seq::empty());
                print_events(executed.printed) + match executed.result {
                    Ok(_) => Seq::empty(),
                    Err(error) => seq![EventView::RuntimeError(error)],
                } + declaration_events(k, parsed, i + 1, executed.scopes)
            },
        }
    } else {
        Seq::empty()
    }
}

/// Whether one of the declarations from the `i`-th on was parsed and holds
/// one of the operators `+`, `-`, `*` and `/`.
pub open spec fn declarations_have_arithmetic(
    parsed: Seq<Result<StmtView, LoxErrorView>>,
    i: int,
) -> bool
    decreases parsed.len() - i,
{
    0 <= i < parsed.len() && ((parsed[i] matches Ok(stmt) && stmt_has_arithmetic(stmt))
        || declarations_have_arithmetic(parsed, i + 1))
}

/// Whether `read` and `k` say what a run of `source` with `parse_number`
/// and `arith` shows: each is what the executable function computes, or
/// is not needed, the one because the source holds no digit and the other
/// because the program holds no arithmetic operator.
pub open spec fn describes<P: Fn(&str) -> Option<u64>, A: Fn(BinaryOp, u64, u64) -> u64>(
    parse_number: &P,
    arith: &A,
    read: NumberReader,
    k: Arithmetic,
    source: Seq<char>,
) -> bool {
    &&& interprets(parse_number, read, has_digit(source))
    &&& governs(
        arith,
        k,
        declarations_have_arithmetic(grammar::program(lexemes::scan(read, source, 0, 1).tokens, 0), 0),
    )
}

/// The events of a run of `source`: the errors of the scanner, then the
/// events of the declarations that the parser makes of the tokens, executed
/// from an environment with the empty global scope alone.
pub open spec fn run_events(read: NumberReader, k: Arithmetic, source: Seq<char>) -> Seq<EventView> {
    let scanned = lexemes::scan(read, source, 0, 1);
    syntax_events(scanned.errors) + declaration_events(
        k,
        grammar::program(scanned.tokens, 0),
        0,
        seq![Map::empty()],
    )
}

/// Scans, parses and executes `source`, and gives what it shows, in order.
/// An error stops the statement it is in and no other. Numerals are read
/// by `parse_number` and the arithmetic on numbers is done by `arith`.
pub fn run<P: Fn(&str) -> Option<u64>, A: Fn(BinaryOp, u64, u64) -> u64>(
    source: String,
    parse_number: &P,
    arith: &A,
) -> (events: Vec<Event>)
    requires
        source@.len() < u32::MAX,
        reads_all(parse_number),
        total(arith),
    ensures
        forall|read: NumberReader, k: Arithmetic| #[trigger]
            describes(parse_number, arith, read, k, source@) ==> event_views(events@) == run_events(
                read,
                k,
                source@,
            ),
{
    let mut scanner = Scanner::new(source);
    scanner.scan_tokens(parse_number);
    let ghost found = scanner.found();
    let ghost faults = scanner.faults();
    let (tokens, errors) = scanner.into_parts();

    let mut events: Vec<Event> = Vec::new();
    for error in it: errors
        invariant
            it.seq() == errors@,
            event_views(events@) == syntax_events(error_views(errors@.take(it.index() as int))),
    {
        proof {
            let i = it.index() as int;
            assert(errors@.take(i + 1) =~= errors@.take(i).push(error));
            assert(error_views(errors@.take(i).push(error)) =~= error_views(errors@.take(i)).push(
                error@,
            ));
            assert(syntax_events(error_views(errors@.take(i)).push(error@)) =~= syntax_events(
                error_views(errors@.take(i)),
            ).push(EventView::SyntaxError(error@)));
            assert(event_views(events@.push(Event::SyntaxError(error))) =~= event_views(
                events@,
            ).push(EventView::SyntaxError(error@)));
            assert(event_views(events@.push(Event::SyntaxError(error))) =~= syntax_events(
                error_views(errors@.take(i + 1)),
            ));
        }
        events.push(Event::SyntaxError(error));
    }
    assert(errors@.take(errors@.len() as int) =~= errors@);

    let mut parser = Parser::new();
    parser.reset_tokens(tokens);
    let parsed = parser.parse();
    let ghost declarations = program_outcome(parsed@);

    let mut env = Environment::new();
    let ghost start = event_views(events@);
    assert(start + Seq::<EventView>::empty() =~= start);
    for result in it: parsed
        invariant
            it.seq() == parsed@,
            declarations == program_outcome(parsed@),
            env.wf(),
            total(arith),
            forall|k: Arithmetic| #[trigger]
                governs(arith, k, declarations_have_arithmetic(declarations, 0)) ==> governs(
                    arith,
                    k,
                    declarations_have_arithmetic(declarations, it.index() as int),
                ) && start + declaration_events(k, declarations, 0, seq![Map::empty()])
                    == event_views(events@) + declaration_events(
                    k,
                    declarations,
                    it.index() as int,
                    env@,
                ),
    {
        let ghost i = it.index() as int;
        let ghost before = event_views(events@);
        let ghost scopes = env@;
        assert(declarations[i] == crate::parser::stmt_outcome(result));
        match result {
            Err(error) => {
                proof {
                    assert(event_views(events@.push(Event::SyntaxError(error))) =~= before.push(
                        EventView::SyntaxError(error@),
                    ));
                    assert forall|k: Arithmetic| #[trigger]
                        governs(arith, k, declarations_have_arithmetic(declarations, i)) implies governs(
                        arith,
                        k,
                        declarations_have_arithmetic(declarations, i + 1),
                    ) && before + declaration_events(k, declarations, i, scopes) == before.push(
                        EventView::SyntaxError(error@),
                    ) + declaration_events(k, declarations, i + 1, scopes) by {
                        assert(before + (seq![EventView::SyntaxError(error@)] + declaration_events(
                            k,
                            declarations,
                            i + 1,
                            scopes,
                        )) =~= before.push(EventView::SyntaxError(error@)) + declaration_events(
                            k,
                            declarations,
                            i + 1,
                            scopes,
                        ));
                    }
                }
                events.push(Event::SyntaxError(error));
            },
            Ok(stmt) => {
                let mut out: Vec<Literal> = Vec::new();
                assert(value_views(out@) =~= Seq::<Value>::empty());
                let outcome = stmt.interpret_stmt(&mut env, arith, &mut out);
                let ghost printed = value_views(out@);
                for value in values: out
                    invariant
                        values.seq() == out@,
                        event_views(events@) == before + print_events(
                            value_views(out@.take(values.index() as int)),
                        ),
                {
                    proof {
                        let j = values.index() as int;
                        assert(out@.take(j + 1) =~= out@.take(j).push(value));
                        assert(value_views(out@.take(j).push(value)) =~= value_views(
                            out@.take(j),
                        ).push(value@));
                        assert(print_events(value_views(out@.take(j)).push(value@))
                            =~= print_events(value_views(out@.take(j))).push(
                            EventView::Printed(value@),
                        ));
                        assert(event_views(events@.push(Event::Printed(value))) =~= event_views(
                            events@,
                        ).push(EventView::Printed(value@)));
                        assert(event_views(events@.push(Event::Printed(value))) =~= before
                            + print_events(value_views(out@.take(j + 1))));
                    }
                    events.push(Event::Printed(value));
                }
                assert(out@.take(out@.len() as int) =~= out@);
                let ghost shown = event_views(events@);
                if let Err(error) = outcome {
                    assert(event_views(events@.push(Event::RuntimeError(error))) =~= shown.push(
                        EventView::RuntimeError(error@),
                    ));
                    events.push(Event::RuntimeError(error));
                }
                proof {
                    assert forall|k: Arithmetic| #[trigger]
                        governs(arith, k, declarations_have_arithmetic(declarations, i)) implies governs(
                        arith,
                        k,
                        declarations_have_arithmetic(declarations, i + 1),
                    ) && before + declaration_events(k, declarations, i, scopes) == event_views(
                        events@,
                    ) + declaration_events(k, declarations, i + 1, env@) by {
                        assert(governs(arith, k, stmt_has_arithmetic(stmt@)));
                        let executed = execute(k, stmt@, scopes, Seq::empty());
                        let failure: Seq<EventView> = match executed.result {
                            Ok(_) => Seq::empty(),
                            Err(error) => seq![EventView::RuntimeError(error)],
                        };
                        let rest = declaration_events(k, declarations, i + 1, env@);
                        assert(event_views(events@) =~= before + print_events(printed) + failure);
                        assert(before + (print_events(printed) + failure + rest) =~= (before
                            + print_events(printed) + failure) + rest);
                    }
                }
            },
        }
    }
    assert forall|k: Arithmetic|
        declaration_events(k, declarations, parsed@.len() as int, env@) =~= Seq::<
            EventView,
        >::empty() by {}
    assert forall|read: NumberReader, k: Arithmetic| #[trigger]
        describes(parse_number, arith, read, k, source@) implies event_views(events@) == run_events(
        read,
        k,
        source@,
    ) by {
        let scanned = lexemes::scan(read, source@, 0, 1);
        assert(found =~= scanned.tokens);
        assert(faults =~= scanned.errors);
        assert(event_views(events@) + Seq::<EventView>::empty() =~= event_views(events@));
    }
    events
}

/// The same as [`run`], for a source of any length: `None` where the
/// source is too long for positions of 32 bits, and nothing is done then.
pub fn try_run<P: Fn(&str) -> Option<u64>, A: Fn(BinaryOp, u64, u64) -> u64>(
    source: String,
    parse_number: &P,
    arith: &A,
) -> (events: Option<Vec<Event>>)
    requires
        reads_all(parse_number),
        total(arith),
    ensures
        events is Some <==> source@.len() < u32::MAX,
        events matches Some(shown) ==> forall|read: NumberReader, k: Arithmetic| #[trigger]
            describes(parse_number, arith, read, k, source@) ==> event_views(shown@) == run_events(
                read,
                k,
                source@,
            ),
{
    if source.as_str().unicode_len() < u32::MAX as usize {
        Some(run(source, parse_number, arith))
    } else {
        None
    }
}

} // verus!
