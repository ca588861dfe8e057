//! The command language that edits and drives an engine: one line of words separated by
//! spaces, read case-insensitively.

use vstd::prelude::*;

use crate::engine::{ConwayEngine, Range, State};
use crate::grid::GridType;
use crate::shape::{shape_named, Shape};
use crate::text::{
    chars_of, concat, debug_list, debug_list_of, fields, fields_on, lower_each, lower_of,
    parse_int, parse_isize, prefixed, same_chars, split, split_on, string_of, trim, trim_each, trimmed,
    views,
};

verus! {

/// A command that the user gave.
#[derive(Debug)]
pub enum GridCommand {
    Quit,
    Start,
    Help,
    /// Fill the grid at random; the text of the chance, where one was given.
    Random(Option<String>),
    Clear,
    Resize,
    /// Flip the cells of a span of rows by a span of columns.
    Toggle(Range, Range),
    /// Stamp a shape at each cell of a span of rows by a span of columns.
    Shape((Range, Range), Shape),
}

/// The value of a command, with texts as character sequences.
pub enum CommandModel {
    Quit,
    Start,
    Help,
    Random(Option<Seq<char>>),
    Clear,
    Resize,
    Toggle(Range, Range),
    Shape((Range, Range), Shape),
}

impl View for GridCommand {
    type V = CommandModel;

    open spec fn view(&self) -> CommandModel {
        match self {
            GridCommand::Quit => CommandModel::Quit,
            GridCommand::Start => CommandModel::Start,
            GridCommand::Help => CommandModel::Help,
            GridCommand::Random(c) => CommandModel::Random(
                match c {
                    Some(t) => Some(t@),
                    None => None,
                },
            ),
            GridCommand::Clear => CommandModel::Clear,
            GridCommand::Resize => CommandModel::Resize,
            GridCommand::Toggle(rr, cr) => CommandModel::Toggle(*rr, *cr),
            GridCommand::Shape(at, s) => CommandModel::Shape(*at, *s),
        }
    }
}

/// The outcome of reading a command, with texts as character sequences.
pub open spec fn outcome(r: Result<GridCommand, String>) -> Result<CommandModel, Seq<char>> {
    match r {
        Ok(c) => Ok(c@),
        Err(e) => Err(e@),
    }
}

/// The words of a command line: its non-empty pieces between spaces, in lower case.
pub open spec fn words_of(input: Seq<char>) -> Seq<Seq<char>> {
    fields(input, ' ').map_values(|w: Seq<char>| lower_of(w))
}

/// The message that rejects the words of `ws` from the `k`-th on.
pub open spec fn unexpected(ws: Seq<Seq<char>>, k: int) -> Seq<char> {
    "Unexpected arguments: "@ + debug_list_of(ws.subrange(k, ws.len() as int))
}

/// A command that takes no argument.
pub open spec fn bare(ws: Seq<Seq<char>>, c: CommandModel) -> Result<CommandModel, Seq<char>> {
    if ws.len() > 1 {
        Err(unexpected(ws, 1))
    } else {
        Ok(c)
    }
}

/// At most the first two of `ws`.
pub open spec fn first_two(ws: Seq<Seq<char>>) -> Seq<Seq<char>> {
    if ws.len() > 2 {
        ws.take(2)
    } else {
        ws
    }
}

/// The bounds that one coordinate writes: its non-empty pieces between `-`, trimmed, at most two.
pub open spec fn bounds_of(part: Seq<char>) -> Seq<Seq<char>> {
    first_two(fields(part, '-').map_values(|w: Seq<char>| trim(w)))
}

/// The first of `ws` that is not an integer, if any.
pub open spec fn first_invalid(ws: Seq<Seq<char>>) -> Option<Seq<char>>
    decreases ws.len(),
{
    if ws.len() == 0 {
        None
    } else if parse_isize(ws[0]) is None {
        Some(ws[0])
    } else {
        first_invalid(ws.drop_first())
    }
}

/// The span from the first bound to the last.
pub open spec fn span_of(ws: Seq<Seq<char>>) -> Range {
    (parse_isize(ws[0]).unwrap() as isize, parse_isize(ws.last()).unwrap() as isize)
}

/// The spans of rows and columns that `row[-row],column[-column]` writes, or the message that
/// rejects it.
pub open spec fn ranges_of(coords: Seq<char>) -> Result<(Range, Range), Seq<char>> {
    let parts = split(coords, ',').map_values(|p: Seq<char>| trim(p));
    if parts.len() > 2 {
        Err("Unexpected position '"@ + parts[2] + "'"@)
    } else if parts.len() <= 1 {
        Err("Not enough co-ordinates."@)
    } else {
        let rows = bounds_of(parts[0]);
        let cols = bounds_of(parts[1]);
        match first_invalid(rows) {
            Some(w) => Err("Invalid row "@ + w),
            None => match first_invalid(cols) {
                Some(w) => Err("Invalid column "@ + w),
                None => if rows.len() == 0 || cols.len() == 0 {
                    Err("Not enough co-ordinates."@)
                } else {
                    Ok((span_of(rows), span_of(cols)))
                },
            },
        }
    }
}

/// The command that a line reads as, or the message that rejects it.
pub open spec fn command_of(input: Seq<char>) -> Result<CommandModel, Seq<char>> {
    let ws = words_of(input);
    if ws.len() == 0 {
        Err("No command specified."@)
    } else {
        let head = ws[0];
        if head == "help"@ {
            bare(ws, CommandModel::Help)
        } else if head == "clear"@ {
            bare(ws, CommandModel::Clear)
        } else if head == "resize"@ {
            bare(ws, CommandModel::Resize)
        } else if head == "start"@ {
            bare(ws, CommandModel::Start)
        } else if head == "random"@ {
            if ws.len() > 2 {
                Err(unexpected(ws, 2))
            } else if ws.len() == 2 {
                Ok(CommandModel::Random(Some(ws[1])))
            } else {
                Ok(CommandModel::Random(None))
            }
        } else if head == "quit"@ || head == "exit"@ || head == "e"@ || head == "q"@ {
            bare(ws, CommandModel::Quit)
        } else if head == "glider"@ || head == "square"@ || head == "circle"@ {
            if ws.len() < 2 {
                Err("Not enough arguments."@)
            } else {
                match ranges_of(ws[1]) {
                    Err(e) => Err(e),
                    Ok(at) => match shape_named(head) {
                        Ok(s) => Ok(CommandModel::Shape(at, s)),
                        Err(e) => Err(e),
                    },
                }
            }
        } else {
            match ranges_of(head) {
                Ok((rr, cr)) => Ok(CommandModel::Toggle(rr, cr)),
                Err(e) => Err(e),
            }
        }
    }
}

/// The grid that a setup line `rows,columns - open|closed` asks for, as rows, columns and
/// policy, or the message that rejects it.
pub open spec fn setup_of(input: Seq<char>) -> Result<(int, int, GridType), Seq<char>> {
    let parts = fields(trim(input), '-').map_values(|w: Seq<char>| lower_of(trim(w)));
    if parts.len() == 0 {
        Err("No command specified."@)
    } else {
        let size = fields(parts[0], ',').map_values(|w: Seq<char>| trim(w));
        if size.len() == 0 {
            Err("No grid row specified."@)
        } else if size.len() == 1 {
            Err("No grid column specified."@)
        } else if parse_isize(size[0]) is None {
            Err("Invalid row '"@ + size[0] + "'."@)
        } else if parse_isize(size[1]) is None {
            Err("Invalid column '"@ + size[1] + "'."@)
        } else {
            let rows = parse_isize(size[0]).unwrap();
            let columns = parse_isize(size[1]).unwrap();
            if rows < 1 || columns < 1 {
                Err("Grid cannot have less than one row/column."@)
            } else if parts.len() == 1 {
                Err("No grid type specified."@)
            } else if parts[1] != "open"@ && parts[1] != "closed"@ {
                Err("Invalid grid type."@)
            } else if rows * columns >= isize::MAX {
                Err("Grid is too large."@)
            } else {
                Ok(
                    (
                        rows,
                        columns,
                        if parts[1] == "open"@ {
                            GridType::Open
                        } else {
                            GridType::Closed
                        },
                    ),
                )
            }
        }
    }
}

/// The text `lit` as a `String`.
fn message(lit: &str) -> (r: String)
    ensures
        r@ == lit@,
{
    string_of(&chars_of(lit))
}

/// The words of `ws` from the `k`-th on.
fn rest(ws: &Vec<Vec<char>>, k: usize) -> (r: Vec<Vec<char>>)
    requires
        k <= ws@.len(),
    ensures
        views(r@) == views(ws@).subrange(k as int, ws@.len() as int),
{
    let mut r: Vec<Vec<char>> = Vec::new();
    let mut i: usize = k;
    while i < ws.len()
        invariant
            k <= i <= ws@.len(),
            views(r@) == views(ws@).subrange(k as int, i as int),
        decreases ws@.len() - i,
    {
        let ghost before = views(r@);
        let w = ws[i].clone();
        r.push(w);
        proof {
            assert(views(r@) =~= before.push(ws@[i as int]@));
            assert(views(r@) =~= views(ws@).subrange(k as int, i + 1));
        }
        i += 1;
    }
    r
}

/// The message that rejects the words of `ws` from the `k`-th on.
fn unexpected_message(ws: &Vec<Vec<char>>, k: usize) -> (r: String)
    requires
        k <= ws@.len(),
    ensures
        r@ == unexpected(views(ws@), k as int),
{
    let tail = rest(ws, k);
    string_of(&prefixed("Unexpected arguments: ", &debug_list(tail.as_slice())))
}

/// The values of `ws`, or the position of the first that is not an integer.
fn parse_each(ws: &Vec<Vec<char>>) -> (r: Result<Vec<isize>, usize>)
    ensures
        match r {
            Ok(vals) => first_invalid(views(ws@)) is None && vals@.len() == ws@.len() && forall|j: int|
                0 <= j < ws@.len() ==> parse_isize(ws@[j]@) == Some(#[trigger] vals@[j] as int),
            Err(k) => k < ws@.len() && first_invalid(views(ws@)) == Some(ws@[k as int]@),
        },
{
    let ghost all = views(ws@);
    let mut vals: Vec<isize> = Vec::new();
    let mut i: usize = 0;
    assert(all.subrange(0, all.len() as int) =~= all);
    while i < ws.len()
        invariant
            all == views(ws@),
            0 <= i <= ws@.len(),
            first_invalid(all) == first_invalid(all.subrange(i as int, all.len() as int)),
            vals@.len() == i,
            forall|j: int| 0 <= j < i ==> parse_isize(ws@[j]@) == Some(#[trigger] vals@[j] as int),
        decreases ws@.len() - i,
    {
        let ghost tail = all.subrange(i as int, all.len() as int);
        assert(tail.drop_first() =~= all.subrange(i + 1, all.len() as int));
        assert(tail[0] == ws@[i as int]@);
        match parse_int(&ws[i]) {
            Some(v) => {
                vals.push(v);
            },
            None => {
                return Err(i);
            },
        }
        i += 1;
    }
    assert(all.subrange(i as int, all.len() as int) =~= Seq::<Seq<char>>::empty());
    Ok(vals)
}

/// The bounds that one coordinate writes: its non-empty pieces between `-`, trimmed, at most two.
fn bounds(part: &Vec<char>) -> (r: Vec<Vec<char>>)
    ensures
        views(r@) == bounds_of(part@),
{
    let mut ws = trim_each(&fields_on(part, '-'));
    if ws.len() > 2 {
        ws.truncate(2);
        assert(views(ws@) =~= first_two(fields(part@, '-').map_values(|w: Seq<char>| trim(w))));
    }
    ws
}

impl ConwayEngine {
    /// Reads `row[-row],column[-column]` as a span of rows and a span of columns; a bound that
    /// is given once stands for both ends of its span.
    pub fn get_ranges(coords: &str) -> (r: Result<(Range, Range), String>)
        ensures
            match r {
                Ok(x) => ranges_of(coords@) == Ok::<(Range, Range), Seq<char>>(x),
                Err(e) => ranges_of(coords@) == Err::<(Range, Range), Seq<char>>(e@),
            },
    {
        let chars = chars_of(coords);
        let parts = trim_each(&split_on(&chars, ','));
        if parts.len() > 2 {
            let m = concat(&prefixed("Unexpected position '", &parts[2]), &chars_of("'"));
            return Err(string_of(&m));
        } else if parts.len() <= 1 {
            return Err(message("Not enough co-ordinates."));
        }
        let rows = bounds(&parts[0]);
        let cols = bounds(&parts[1]);
        let rr = match parse_each(&rows) {
            Ok(v) => v,
            Err(k) => {
                return Err(string_of(&prefixed("Invalid row ", &rows[k])));
            },
        };
        let cr = match parse_each(&cols) {
            Ok(v) => v,
            Err(k) => {
                return Err(string_of(&prefixed("Invalid column ", &cols[k])));
            },
        };
        if rr.len() == 0 || cr.len() == 0 {
            return Err(message("Not enough co-ordinates."));
        }
        let r1 = rr[0];
        let c1 = cr[0];
        let r2 = if rr.len() == 1 { r1 } else { rr[1] };
        let c2 = if cr.len() == 1 { c1 } else { cr[1] };
        Ok(((r1, r2), (c1, c2)))
    }

    /// Reads one command line; see `command_of` for the language.
    pub fn handle_input(input: String) -> (r: Result<GridCommand, String>)
        ensures
            outcome(r) == command_of(input@),
    {
        let chars = chars_of(input.as_str());
        let commands = lower_each(&fields_on(&chars, ' '));
        let ghost ws = views(commands@);
        assert(ws =~= words_of(input@));
        if commands.len() == 0 {
            return Err(message("No command specified."));
        }
        let len = commands.len();
        let head = &commands[0];
        if same_chars(head, "help") {
            if len > 1 {
                return Err(unexpected_message(&commands, 1));
            }
            Ok(GridCommand::Help)
        } else if same_chars(head, "clear") {
            if len > 1 {
                return Err(unexpected_message(&commands, 1));
            }
            Ok(GridCommand::Clear)
        } else if same_chars(head, "resize") {
            if len > 1 {
                return Err(unexpected_message(&commands, 1));
            }
            Ok(GridCommand::Resize)
        } else if same_chars(head, "start") {
            if len > 1 {
                return Err(unexpected_message(&commands, 1));
            }
            Ok(GridCommand::Start)
        } else if same_chars(head, "random") {
            if len > 2 {
                return Err(unexpected_message(&commands, 2));
            }
            if len == 2 {
                Ok(GridCommand::Random(Some(string_of(&commands[1]))))
            } else {
                Ok(GridCommand::Random(None))
            }
        } else if same_chars(head, "quit") || same_chars(head, "exit") || same_chars(head, "e")
            || same_chars(head, "q") {
            if len > 1 {
                return Err(unexpected_message(&commands, 1));
            }
            Ok(GridCommand::Quit)
        } else if same_chars(head, "glider") || same_chars(head, "square") || same_chars(
            head,
            "circle",
        ) {
            if len < 2 {
                return Err(message("Not enough arguments."));
            }
            let at = match ConwayEngine::get_ranges(string_of(&commands[1]).as_str()) {
                Ok(at) => at,
                Err(e) => {
                    return Err(e);
                },
            };
            match Shape::from_name(string_of(head).as_str()) {
                Ok(shape) => Ok(GridCommand::Shape(at, shape)),
                Err(e) => Err(e),
            }
        } else {
            match ConwayEngine::get_ranges(string_of(head).as_str()) {
                Ok((rr, cr)) => Ok(GridCommand::Toggle(rr, cr)),
                Err(e) => Err(e),
            }
        }
    }

    /// An engine at generation 0 with the grid that a setup line asks for; see `setup_of`.
    pub fn from_line(input: &str) -> (r: Result<ConwayEngine, String>)
        ensures
            match r {
                Ok(e) => {
                    &&& e.wf()
                    &&& e@.generation == 0
                    &&& setup_of(input@) == Ok::<(int, int, GridType), Seq<char>>(
                        (e@.grid.rows, e@.grid.columns, e@.grid.grid_type),
                    )
                    &&& forall|i: int| 0 <= i < e@.grid.cells.len() ==> e@.grid.cells[i] == State::Dead
                },
                Err(m) => setup_of(input@) == Err::<(int, int, GridType), Seq<char>>(m@),
            },
    {
        let line = trimmed(&chars_of(input));
        let inputs = lower_each(&trim_each(&fields_on(&line, '-')));
        let ghost parts = views(inputs@);
        assert(parts =~= fields(trim(input@), '-').map_values(|w: Seq<char>| lower_of(trim(w))));
        if inputs.len() == 0 {
            return Err(message("No command specified."));
        }
        let size = trim_each(&fields_on(&inputs[0], ','));
        if size.len() == 0 {
            return Err(message("No grid row specified."));
        } else if size.len() == 1 {
            return Err(message("No grid column specified."));
        }
        let rows = match parse_int(&size[0]) {
            Some(v) => v,
            None => {
                let m = concat(&prefixed("Invalid row '", &size[0]), &chars_of("'."));
                return Err(string_of(&m));
            },
        };
        let columns = match parse_int(&size[1]) {
            Some(v) => v,
            None => {
                let m = concat(&prefixed("Invalid column '", &size[1]), &chars_of("'."));
                return Err(string_of(&m));
            },
        };
        if rows < 1 || columns < 1 {
            return Err(message("Grid cannot have less than one row/column."));
        }
        if inputs.len() == 1 {
            return Err(message("No grid type specified."));
        }
        let grid_type = if same_chars(&inputs[1], "open") {
            GridType::Open
        } else if same_chars(&inputs[1], "closed") {
            GridType::Closed
        } else {
            return Err(message("Invalid grid type."));
        };
        match rows.checked_mul(columns) {
            Some(n) if n < isize::MAX => Ok(ConwayEngine::new(rows, columns, grid_type)),
            _ => Err(message("Grid is too large.")),
        }
    }
}

} // verus!
