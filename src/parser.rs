//! Turning an input line into a command.
use vstd::prelude::*;
use vstd::string::*;
use crate::codec::{Field, Row, RowModel, fits_slot, USERNAME_SIZE, EMAIL_SIZE, check_slot};
use crate::text::{split_ws, split_tokens, parse_u32, parse_u32_spec, text_eq};

verus! {

/// A session-control command.
#[derive(Clone, Copy, Debug, PartialEq, Eq, Structural)]
pub enum MetaCommandResult {
    /// End the session.
    Exit,
}

/// The kind of a data statement.
#[derive(Clone, Copy, Debug, PartialEq, Eq, Structural)]
pub enum StatementType {
    /// Store a record.
    Insert,
    /// Look a record up by identifier.
    Select,
    /// List every record, in the order of insertion.
    SelectAll,
}

/// Why a line is not a command.
#[derive(Clone, Copy, Debug, PartialEq, Eq, Structural)]
pub enum PrepareResult {
    /// A line starting with `.` other than `.exit`.
    UnrecognizedMeta,
    /// A first token other than `insert` or `select`.
    UnrecognizedStatement,
    /// Fewer arguments than the statement needs.
    MissingArgument,
    /// More arguments than the statement takes.
    ExtraArgument,
    /// An argument that is not a valid value of its field.
    InvalidArgument(Field),
}

/// A data statement: its kind and the record it carries. A lookup uses only
/// the identifier of the record.
#[derive(Debug)]
pub struct Statement {
    pub kind: StatementType,
    pub row: Row,
}

/// A parsed input line.
#[derive(Debug)]
pub enum Command {
    Meta(MetaCommandResult),
    Statement(Statement),
}

/// The mathematical value of a command.
pub enum CommandModel {
    Meta(MetaCommandResult),
    Statement(StatementType, RowModel),
}

impl View for Command {
    type V = CommandModel;

    open spec fn view(&self) -> CommandModel {
        match self {
            Command::Meta(m) => CommandModel::Meta(*m),
            Command::Statement(s) => CommandModel::Statement(s.kind, s.row@),
        }
    }
}

impl Statement {
    /// A statement of the given kind carrying the given record.
    pub fn new(kind: StatementType, row: Row) -> (r: Statement)
        ensures
            r.kind == kind,
            r.row@ == row@,
    {
        Statement { kind, row }
    }
}

/// The text `insert`.
pub open spec fn insert_word() -> Seq<char> {
    seq!['i', 'n', 's', 'e', 'r', 't']
}

/// The text `select`.
pub open spec fn select_word() -> Seq<char> {
    seq!['s', 'e', 'l', 'e', 'c', 't']
}

/// The text `.exit`.
pub open spec fn exit_word() -> Seq<char> {
    seq!['.', 'e', 'x', 'i', 't']
}

/// A record with only its identifier set.
pub open spec fn key_row(id: u32) -> RowModel {
    RowModel { id, username: Seq::empty(), email: Seq::empty() }
}

/// The meaning of a meta-command line.
pub open spec fn meta_spec(line: Seq<char>) -> Result<CommandModel, PrepareResult> {
    if line == exit_word() {
        Ok(CommandModel::Meta(MetaCommandResult::Exit))
    } else {
        Err(PrepareResult::UnrecognizedMeta)
    }
}

/// The meaning of the tokens of an `insert` statement.
pub open spec fn insert_spec(t: Seq<Seq<char>>) -> Result<CommandModel, PrepareResult> {
    if t.len() < 4 {
        Err(PrepareResult::MissingArgument)
    } else if t.len() > 4 {
        Err(PrepareResult::ExtraArgument)
    } else if parse_u32_spec(t[1]) is None {
        Err(PrepareResult::InvalidArgument(Field::Id))
    } else if !fits_slot(t[2], USERNAME_SIZE as nat) {
        Err(PrepareResult::InvalidArgument(Field::Username))
    } else if !fits_slot(t[3], EMAIL_SIZE as nat) {
        Err(PrepareResult::InvalidArgument(Field::Email))
    } else {
        Ok(
            CommandModel::Statement(
                StatementType::Insert,
                RowModel { id: parse_u32_spec(t[1])->0, username: t[2], email: t[3] },
            ),
        )
    }
}

/// The meaning of the tokens of a `select` statement; a bare `select` lists
/// every record when `scan` holds.
pub open spec fn select_spec(t: Seq<Seq<char>>, scan: bool) -> Result<CommandModel, PrepareResult> {
    if t.len() < 2 {
        if scan {
            Ok(CommandModel::Statement(StatementType::SelectAll, key_row(0)))
        } else {
            Err(PrepareResult::MissingArgument)
        }
    } else if t.len() > 2 {
        Err(PrepareResult::ExtraArgument)
    } else if parse_u32_spec(t[1]) is None {
        Err(PrepareResult::InvalidArgument(Field::Id))
    } else {
        Ok(CommandModel::Statement(StatementType::Select, key_row(parse_u32_spec(t[1])->0)))
    }
}

/// The meaning of an input line. The first token must equal a statement
/// word exactly.
pub open spec fn parse_spec(line: Seq<char>, scan: bool) -> Result<CommandModel, PrepareResult> {
    if line.len() > 0 && line[0] == '.' {
        meta_spec(line)
    } else {
        let t = split_ws(line);
        if t.len() > 0 && t[0] == insert_word() {
            insert_spec(t)
        } else if t.len() > 0 && t[0] == select_word() {
            select_spec(t, scan)
        } else {
            Err(PrepareResult::UnrecognizedStatement)
        }
    }
}

/// Recognizes a meta-command line.
pub fn do_meta_command(line: &str) -> (r: Result<MetaCommandResult, PrepareResult>)
    ensures
        r is Ok <==> line@ == exit_word(),
        r is Ok ==> r == Ok::<MetaCommandResult, PrepareResult>(MetaCommandResult::Exit),
        r is Err ==> r == Err::<MetaCommandResult, PrepareResult>(PrepareResult::UnrecognizedMeta),
{
    proof {
        reveal_strlit(".exit");
    }
    if text_eq(line, ".exit") {
        assert(line@ =~= exit_word());
        Ok(MetaCommandResult::Exit)
    } else {
        assert(".exit"@ =~= exit_word());
        Err(PrepareResult::UnrecognizedMeta)
    }
}

/// Parses an input line into a command. When `scan` holds, a bare `select`
/// asks for every record; otherwise `select` needs an identifier.
pub fn prepare_statement(line: &str, scan: bool) -> (r: Result<Command, PrepareResult>)
    ensures
        match parse_spec(line@, scan) {
            Ok(m) => r matches Ok(c) && c@ == m,
            Err(e) => r matches Err(x) && x == e,
        },
{
    if line.unicode_len() > 0 && line.get_char(0) == '.' {
        return match do_meta_command(line) {
            Ok(m) => Ok(Command::Meta(m)),
            Err(e) => Err(e),
        };
    }
    let toks = split_tokens(line);
    let ghost t = split_ws(line@);
    proof {
        reveal_strlit("insert");
        reveal_strlit("select");
        assert("insert"@ =~= insert_word());
        assert("select"@ =~= select_word());
    }
    if toks.len() == 0 {
        return Err(PrepareResult::UnrecognizedStatement);
    }
    assert(toks@[0]@ == t[0]);
    if text_eq(toks[0].as_str(), "insert") {
        if toks.len() < 4 {
            return Err(PrepareResult::MissingArgument);
        }
        if toks.len() > 4 {
            return Err(PrepareResult::ExtraArgument);
        }
        assert(toks@[1]@ == t[1] && toks@[2]@ == t[2] && toks@[3]@ == t[3]);
        let id = match parse_u32(toks[1].as_str()) {
            Some(v) => v,
            None => return Err(PrepareResult::InvalidArgument(Field::Id)),
        };
        if check_slot(&toks[2], USERNAME_SIZE, Field::Username).is_some() {
            return Err(PrepareResult::InvalidArgument(Field::Username));
        }
        if check_slot(&toks[3], EMAIL_SIZE, Field::Email).is_some() {
            return Err(PrepareResult::InvalidArgument(Field::Email));
        }
        let row = Row::new(id, toks[2].clone(), toks[3].clone());
        return Ok(Command::Statement(Statement::new(StatementType::Insert, row)));
    }
    if text_eq(toks[0].as_str(), "select") {
        if toks.len() < 2 {
            if scan {
                let row = Row::empty();
                return Ok(Command::Statement(Statement::new(StatementType::SelectAll, row)));
            }
            return Err(PrepareResult::MissingArgument);
        }
        if toks.len() > 2 {
            return Err(PrepareResult::ExtraArgument);
        }
        assert(toks@[1]@ == t[1]);
        let id = match parse_u32(toks[1].as_str()) {
            Some(v) => v,
            None => return Err(PrepareResult::InvalidArgument(Field::Id)),
        };
        let mut row = Row::empty();
        row.id = id;
        return Ok(Command::Statement(Statement::new(StatementType::Select, row)));
    }
    Err(PrepareResult::UnrecognizedStatement)
}

} // verus!
