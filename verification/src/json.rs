//! Decoding of inbound wire frames.
//!
//! A frame is one JSON object. The members the frame schemas read are
//! scalars (strings without escapes, numbers, booleans, null) or arrays of
//! rows of scalars; any other balanced value — nested containers, strings
//! with escapes — parses as `Skipped`, so a frame whose tag selects no
//! schema is never rejected for the shape of members nobody reads. The
//! parser is specified by spec functions that read the character sequence
//! exactly as the executable code does; list productions carry a fuel that
//! the top entry seeds with the input length, which consumption keeps from
//! running out on real input.

use vstd::prelude::*;
use crate::digits::is_digit;
use vstd::string::StrSliceExecFns;

verus! {

/// A scalar of a frame: a string, or an uninterpreted token (a number,
/// boolean or null), whose spelling no schema reads.
#[derive(Clone, PartialEq, Eq, Debug)]
pub enum JsonCell {
    Text(String),
    Token,
}

/// A member value: a scalar, an array of rows of scalars, or any other
/// balanced value, passed over without being read.
#[derive(Clone, PartialEq, Eq, Debug)]
pub enum JsonValue {
    Cell(JsonCell),
    Arr(Vec<Vec<JsonCell>>),
    Skipped,
}

/// Spec model of a scalar.
pub enum SpCell {
    Text(Seq<char>),
    Token,
}

/// Spec model of a member value.
pub enum SpVal {
    Cell(SpCell),
    Arr(Seq<Seq<SpCell>>),
    Skipped,
}

pub open spec fn cell_view(c: JsonCell) -> SpCell {
    match c {
        JsonCell::Text(t) => SpCell::Text(t@),
        JsonCell::Token => SpCell::Token,
    }
}

pub open spec fn cells_view(v: Seq<JsonCell>) -> Seq<SpCell> {
    v.map_values(|c: JsonCell| cell_view(c))
}

pub open spec fn rows_view(v: Seq<Vec<JsonCell>>) -> Seq<Seq<SpCell>> {
    v.map_values(|r: Vec<JsonCell>| cells_view(r@))
}

pub open spec fn val_view(v: JsonValue) -> SpVal {
    match v {
        JsonValue::Cell(c) => SpVal::Cell(cell_view(c)),
        JsonValue::Arr(rows) => SpVal::Arr(rows_view(rows@)),
        JsonValue::Skipped => SpVal::Skipped,
    }
}

pub open spec fn members_view(v: Seq<(String, JsonValue)>) -> Seq<(Seq<char>, SpVal)> {
    v.map_values(|p: (String, JsonValue)| (p.0@, val_view(p.1)))
}

/// JSON whitespace.
pub open spec fn is_ws(c: char) -> bool {
    c == ' ' || c == '\t' || c == '\n' || c == '\r'
}

/// A character a scalar token may be spelled with.
pub open spec fn is_token_char(c: char) -> bool {
    is_digit(c) || ('a' <= c && c <= 'z') || c == '-' || c == '+' || c == '.' || c == 'E'
}

/// First index at or after `i` that holds no whitespace.
pub open spec fn sp_ws(s: Seq<char>, i: int) -> int
    decreases s.len() - i when 0 <= i <= s.len()
{
    if i < s.len() && is_ws(s[i]) {
        sp_ws(s, i + 1)
    } else {
        i
    }
}

/// The closing quote of string content starting at `i`; `None` at an
/// escape (outside the supported subset) or an unterminated string.
pub open spec fn sp_str_end(s: Seq<char>, i: int) -> Option<int>
    decreases s.len() - i when 0 <= i <= s.len()
{
    if i >= s.len() {
        None
    } else if s[i] == '"' {
        Some(i)
    } else if s[i] == '\\' {
        None
    } else {
        sp_str_end(s, i + 1)
    }
}

/// End of the scalar-token run starting at `i`.
pub open spec fn sp_token_end(s: Seq<char>, i: int) -> int
    decreases s.len() - i when 0 <= i <= s.len()
{
    if i < s.len() && is_token_char(s[i]) {
        sp_token_end(s, i + 1)
    } else {
        i
    }
}

/// The closing quote of string content starting at `i`, stepping over
/// backslash escape pairs; `None` for an unterminated string.
pub open spec fn sp_str_skip(s: Seq<char>, i: int) -> Option<int>
    decreases s.len() - i when 0 <= i <= s.len()
{
    if i >= s.len() {
        None
    } else if s[i] == '"' {
        Some(i)
    } else if s[i] == '\\' {
        if i + 2 <= s.len() {
            sp_str_skip(s, i + 2)
        } else {
            None
        }
    } else {
        sp_str_skip(s, i + 1)
    }
}

/// Passes over one balanced value of any shape: a string (escapes
/// allowed), a token, or a bracketed container.
pub open spec fn sp_skip_value(s: Seq<char>, i: int, fuel: nat) -> Option<int>
    decreases fuel, 0int,
{
    if i < s.len() && s[i] == '"' {
        match sp_str_skip(s, i + 1) {
            Some(j) => Some(j + 1),
            None => None,
        }
    } else if i < s.len() && (s[i] == '[' || s[i] == '{') {
        if fuel == 0 {
            None
        } else {
            let close = if s[i] == '[' {
                ']'
            } else {
                '}'
            };
            sp_skip_items(s, sp_ws(s, i + 1), close, (fuel - 1) as nat)
        }
    } else {
        let j = sp_token_end(s, i);
        if j > i {
            Some(j)
        } else {
            None
        }
    }
}

/// Passes over the items of a container up to `close`; `,` and `:` both
/// separate, which covers objects and arrays alike.
pub open spec fn sp_skip_items(s: Seq<char>, i: int, close: char, fuel: nat) -> Option<int>
    decreases fuel, 1int,
{
    if i < s.len() && s[i] == close {
        Some(i + 1)
    } else {
        match sp_skip_value(s, i, fuel) {
            Some(m) => {
                if fuel == 0 {
                    None
                } else {
                    let j = sp_ws(s, m);
                    if j < s.len() && s[j] == close {
                        Some(j + 1)
                    } else if j < s.len() && (s[j] == ',' || s[j] == ':') {
                        sp_skip_items(s, sp_ws(s, j + 1), close, (fuel - 1) as nat)
                    } else {
                        None
                    }
                }
            },
            None => None,
        }
    }
}

/// One scalar at `i`: a quoted string or a nonempty token run.
pub open spec fn sp_cell(s: Seq<char>, i: int) -> Option<(SpCell, int)> {
    if i < s.len() && s[i] == '"' {
        match sp_str_end(s, i + 1) {
            Some(j) => Some((SpCell::Text(s.subrange(i + 1, j)), j + 1)),
            None => None,
        }
    } else {
        let j = sp_token_end(s, i);
        if j > i {
            Some((SpCell::Token, j))
        } else {
            None
        }
    }
}

/// The rest of a row after its first cells: `, cell`* `]`.
pub open spec fn sp_cells_rest(s: Seq<char>, i: int, acc: Seq<SpCell>, fuel: nat) -> Option<
    (Seq<SpCell>, int),
>
    decreases fuel,
{
    if fuel == 0 {
        None
    } else {
        let j = sp_ws(s, i);
        if j < s.len() && s[j] == ']' {
            Some((acc, j + 1))
        } else if j < s.len() && s[j] == ',' {
            let k = sp_ws(s, j + 1);
            match sp_cell(s, k) {
                Some((c, m)) => sp_cells_rest(s, m, acc.push(c), (fuel - 1) as nat),
                None => None,
            }
        } else {
            None
        }
    }
}

/// A row `[ cell, ... ]` whose opening bracket stands at `i`.
pub open spec fn sp_row(s: Seq<char>, i: int, fuel: nat) -> Option<(Seq<SpCell>, int)> {
    let j = sp_ws(s, i + 1);
    if j < s.len() && s[j] == ']' {
        Some((Seq::<SpCell>::empty(), j + 1))
    } else {
        match sp_cell(s, j) {
            Some((c, m)) => sp_cells_rest(s, m, seq![c], fuel),
            None => None,
        }
    }
}

/// The rest of an array after its first rows: `, row`* `]`.
pub open spec fn sp_rows_rest(s: Seq<char>, i: int, acc: Seq<Seq<SpCell>>, fuel: nat) -> Option<
    (Seq<Seq<SpCell>>, int),
>
    decreases fuel,
{
    if fuel == 0 {
        None
    } else {
        let j = sp_ws(s, i);
        if j < s.len() && s[j] == ']' {
            Some((acc, j + 1))
        } else if j < s.len() && s[j] == ',' {
            let k = sp_ws(s, j + 1);
            if k < s.len() && s[k] == '[' {
                match sp_row(s, k, fuel) {
                    Some((r, m)) => sp_rows_rest(s, m, acc.push(r), (fuel - 1) as nat),
                    None => None,
                }
            } else {
                None
            }
        } else {
            None
        }
    }
}

/// An array `[ row, ... ]` whose opening bracket stands at `i`.
pub open spec fn sp_arr(s: Seq<char>, i: int, fuel: nat) -> Option<(Seq<Seq<SpCell>>, int)> {
    let j = sp_ws(s, i + 1);
    if j < s.len() && s[j] == ']' {
        Some((Seq::<Seq<SpCell>>::empty(), j + 1))
    } else if j < s.len() && s[j] == '[' {
        match sp_row(s, j, fuel) {
            Some((r, m)) => sp_rows_rest(s, m, seq![r], fuel),
            None => None,
        }
    } else {
        None
    }
}

/// A member value at `i`: an array of rows, a scalar, or — where neither
/// of the readable shapes fits — any balanced value, skipped.
pub open spec fn sp_value(s: Seq<char>, i: int, fuel: nat) -> Option<(SpVal, int)> {
    if i < s.len() && s[i] == '[' {
        match sp_arr(s, i, fuel) {
            Some((rows, j)) => Some((SpVal::Arr(rows), j)),
            None => match sp_skip_value(s, i, fuel) {
                Some(j) => Some((SpVal::Skipped, j)),
                None => None,
            },
        }
    } else if i < s.len() && s[i] == '"' {
        match sp_str_end(s, i + 1) {
            Some(j) => Some((SpVal::Cell(SpCell::Text(s.subrange(i + 1, j))), j + 1)),
            None => match sp_skip_value(s, i, fuel) {
                Some(j) => Some((SpVal::Skipped, j)),
                None => None,
            },
        }
    } else if i < s.len() && s[i] == '{' {
        match sp_skip_value(s, i, fuel) {
            Some(j) => Some((SpVal::Skipped, j)),
            None => None,
        }
    } else {
        match sp_cell(s, i) {
            Some((c, j)) => Some((SpVal::Cell(c), j)),
            None => None,
        }
    }
}

/// One member `"key" : value` at `i`; the key is taken as it is spelled,
/// escape pairs stepped over but not decoded.
pub open spec fn sp_member(s: Seq<char>, i: int, fuel: nat) -> Option<((Seq<char>, SpVal), int)> {
    if i < s.len() && s[i] == '"' {
        match sp_str_skip(s, i + 1) {
            Some(j) => {
                let key = s.subrange(i + 1, j);
                let k = sp_ws(s, j + 1);
                if k < s.len() && s[k] == ':' {
                    let m = sp_ws(s, k + 1);
                    match sp_value(s, m, fuel) {
                        Some((v, end)) => Some(((key, v), end)),
                        None => None,
                    }
                } else {
                    None
                }
            },
            None => None,
        }
    } else {
        None
    }
}

/// The rest of the object after its first member: `, member`* `}`.
pub open spec fn sp_members_rest(
    s: Seq<char>,
    i: int,
    acc: Seq<(Seq<char>, SpVal)>,
    fuel: nat,
) -> Option<(Seq<(Seq<char>, SpVal)>, int)>
    decreases fuel,
{
    if fuel == 0 {
        None
    } else {
        let j = sp_ws(s, i);
        if j < s.len() && s[j] == '}' {
            Some((acc, j + 1))
        } else if j < s.len() && s[j] == ',' {
            let k = sp_ws(s, j + 1);
            match sp_member(s, k, fuel) {
                Some((mb, m)) => sp_members_rest(s, m, acc.push(mb), (fuel - 1) as nat),
                None => None,
            }
        } else {
            None
        }
    }
}

/// The members of a whole frame: one object covering the full input.
pub open spec fn sp_frame_members(s: Seq<char>) -> Option<Seq<(Seq<char>, SpVal)>> {
    let j = sp_ws(s, 0);
    if j < s.len() && s[j] == '{' {
        let k = sp_ws(s, j + 1);
        if k < s.len() && s[k] == '}' {
            if sp_ws(s, k + 1) == s.len() {
                Some(Seq::<(Seq<char>, SpVal)>::empty())
            } else {
                None
            }
        } else {
            match sp_member(s, k, s.len() as nat) {
                Some((mb, m)) => match sp_members_rest(s, m, seq![mb], s.len() as nat) {
                    Some((ms, end)) => if sp_ws(s, end) == s.len() {
                        Some(ms)
                    } else {
                        None
                    },
                    None => None,
                },
                None => None,
            }
        }
    } else {
        None
    }
}

fn p_ws(s: &str, n: usize, i: usize) -> (r: usize)
    requires
        n == s@.len(),
        i <= n,
    ensures
        i <= r <= n,
        r == sp_ws(s@, i as int),
    decreases n - i,
{
    if i < n {
        let c = s.get_char(i);
        if c == ' ' || c == '\t' || c == '\n' || c == '\r' {
            return p_ws(s, n, i + 1);
        }
    }
    i
}

fn p_str_end(s: &str, n: usize, i: usize) -> (r: Option<usize>)
    requires
        n == s@.len(),
        i <= n,
    ensures
        match (r, sp_str_end(s@, i as int)) {
            (Some(j), Some(sj)) => j == sj && i <= j < n,
            (None, None) => true,
            _ => false,
        },
    decreases n - i,
{
    if i >= n {
        None
    } else {
        let c = s.get_char(i);
        if c == '"' {
            Some(i)
        } else if c == '\\' {
            None
        } else {
            p_str_end(s, n, i + 1)
        }
    }
}

fn p_token_end(s: &str, n: usize, i: usize) -> (r: usize)
    requires
        n == s@.len(),
        i <= n,
    ensures
        i <= r <= n,
        r == sp_token_end(s@, i as int),
    decreases n - i,
{
    if i < n {
        let c = s.get_char(i);
        if ('0' <= c && c <= '9') || ('a' <= c && c <= 'z') || c == '-' || c == '+' || c == '.'
            || c == 'E' {
            return p_token_end(s, n, i + 1);
        }
    }
    i
}

fn p_str_skip(s: &str, n: usize, i: usize) -> (r: Option<usize>)
    requires
        n == s@.len(),
        i <= n,
    ensures
        match (r, sp_str_skip(s@, i as int)) {
            (Some(j), Some(sj)) => j == sj && i <= j < n,
            (None, None) => true,
            _ => false,
        },
    decreases n - i,
{
    if i >= n {
        None
    } else {
        let c = s.get_char(i);
        if c == '"' {
            Some(i)
        } else if c == '\\' {
            if n - i >= 2 {
                p_str_skip(s, n, i + 2)
            } else {
                None
            }
        } else {
            p_str_skip(s, n, i + 1)
        }
    }
}

fn p_skip_value(s: &str, n: usize, i: usize, fuel: usize) -> (r: Option<usize>)
    requires
        n == s@.len(),
        i <= n,
    ensures
        match (r, sp_skip_value(s@, i as int, fuel as nat)) {
            (Some(j), Some(sj)) => j == sj && i < j <= n,
            (None, None) => true,
            _ => false,
        },
    decreases fuel, 0int,
{
    if i < n {
        let c = s.get_char(i);
        if c == '"' {
            return match p_str_skip(s, n, i + 1) {
                Some(j) => Some(j + 1),
                None => None,
            };
        }
        if c == '[' || c == '{' {
            if fuel == 0 {
                return None;
            }
            let close = if c == '[' {
                ']'
            } else {
                '}'
            };
            let j = p_ws(s, n, i + 1);
            return p_skip_items(s, n, j, close, fuel - 1);
        }
    }
    let j = p_token_end(s, n, i);
    if j > i {
        Some(j)
    } else {
        None
    }
}

fn p_skip_items(s: &str, n: usize, i: usize, close: char, fuel: usize) -> (r: Option<usize>)
    requires
        n == s@.len(),
        i <= n,
    ensures
        match (r, sp_skip_items(s@, i as int, close, fuel as nat)) {
            (Some(j), Some(sj)) => j == sj && i < j <= n,
            (None, None) => true,
            _ => false,
        },
    decreases fuel, 1int,
{
    if i < n {
        let c = s.get_char(i);
        if c == close {
            return Some(i + 1);
        }
    }
    match p_skip_value(s, n, i, fuel) {
        Some(m) => {
            if fuel == 0 {
                return None;
            }
            let j = p_ws(s, n, m);
            if j < n {
                let cj = s.get_char(j);
                if cj == close {
                    return Some(j + 1);
                }
                if cj == ',' || cj == ':' {
                    let k = p_ws(s, n, j + 1);
                    return p_skip_items(s, n, k, close, fuel - 1);
                }
            }
            None
        },
        None => None,
    }
}

fn p_cell(s: &str, n: usize, i: usize) -> (r: Option<(JsonCell, usize)>)
    requires
        n == s@.len(),
        i <= n,
    ensures
        match (r, sp_cell(s@, i as int)) {
            (Some((c, j)), Some((sc, sj))) => cell_view(c) == sc && j == sj && i < j <= n,
            (None, None) => true,
            _ => false,
        },
{
    if i < n {
        let c = s.get_char(i);
        if c == '"' {
            return match p_str_end(s, n, i + 1) {
                Some(j) => {
                    let t = s.substring_char(i + 1, j).to_owned();
                    Some((JsonCell::Text(t), j + 1))
                },
                None => None,
            };
        }
    }
    let j = p_token_end(s, n, i);
    if j > i {
        Some((JsonCell::Token, j))
    } else {
        None
    }
}

fn p_cells_rest(s: &str, n: usize, i: usize, acc: Vec<JsonCell>, fuel: usize) -> (r: Option<
    (Vec<JsonCell>, usize),
>)
    requires
        n == s@.len(),
        i <= n,
    ensures
        match (r, sp_cells_rest(s@, i as int, cells_view(acc@), fuel as nat)) {
            (Some((v, j)), Some((sv, sj))) => cells_view(v@) == sv && j == sj && j <= n,
            (None, None) => true,
            _ => false,
        },
    decreases fuel,
{
    if fuel == 0 {
        return None;
    }
    let j = p_ws(s, n, i);
    if j < n {
        let c = s.get_char(j);
        if c == ']' {
            return Some((acc, j + 1));
        }
        if c == ',' {
            let k = p_ws(s, n, j + 1);
            return match p_cell(s, n, k) {
                Some((cell, m)) => {
                    let mut acc2 = acc;
                    proof {
                        assert(cells_view(acc2@.push(cell)) =~= cells_view(acc2@).push(
                            cell_view(cell),
                        ));
                    }
                    acc2.push(cell);
                    p_cells_rest(s, n, m, acc2, fuel - 1)
                },
                None => None,
            };
        }
    }
    None
}

fn p_row(s: &str, n: usize, i: usize, fuel: usize) -> (r: Option<(Vec<JsonCell>, usize)>)
    requires
        n == s@.len(),
        i < n,
    ensures
        match (r, sp_row(s@, i as int, fuel as nat)) {
            (Some((v, j)), Some((sv, sj))) => cells_view(v@) == sv && j == sj && j <= n,
            (None, None) => true,
            _ => false,
        },
{
    let j = p_ws(s, n, i + 1);
    if j < n {
        let c = s.get_char(j);
        if c == ']' {
            let empty: Vec<JsonCell> = Vec::new();
            proof {
                assert(cells_view(empty@) =~= Seq::<SpCell>::empty());
            }
            return Some((empty, j + 1));
        }
    }
    match p_cell(s, n, j) {
        Some((cell, m)) => {
            let mut first: Vec<JsonCell> = Vec::new();
            proof {
                assert(cells_view(first@.push(cell)) =~= seq![cell_view(cell)]);
            }
            first.push(cell);
            p_cells_rest(s, n, m, first, fuel)
        },
        None => None,
    }
}

fn p_rows_rest(s: &str, n: usize, i: usize, acc: Vec<Vec<JsonCell>>, fuel: usize) -> (r: Option<
    (Vec<Vec<JsonCell>>, usize),
>)
    requires
        n == s@.len(),
        i <= n,
    ensures
        match (r, sp_rows_rest(s@, i as int, rows_view(acc@), fuel as nat)) {
            (Some((v, j)), Some((sv, sj))) => rows_view(v@) == sv && j == sj && j <= n,
            (None, None) => true,
            _ => false,
        },
    decreases fuel,
{
    if fuel == 0 {
        return None;
    }
    let j = p_ws(s, n, i);
    if j < n {
        let c = s.get_char(j);
        if c == ']' {
            return Some((acc, j + 1));
        }
        if c == ',' {
            let k = p_ws(s, n, j + 1);
            if k < n {
                let ck = s.get_char(k);
                if ck == '[' {
                    return match p_row(s, n, k, fuel) {
                        Some((row, m)) => {
                            let mut acc2 = acc;
                            proof {
                                assert(rows_view(acc2@.push(row)) =~= rows_view(acc2@).push(
                                    cells_view(row@),
                                ));
                            }
                            acc2.push(row);
                            p_rows_rest(s, n, m, acc2, fuel - 1)
                        },
                        None => None,
                    };
                }
            }
            return None;
        }
    }
    None
}

fn p_arr(s: &str, n: usize, i: usize, fuel: usize) -> (r: Option<(Vec<Vec<JsonCell>>, usize)>)
    requires
        n == s@.len(),
        i < n,
    ensures
        match (r, sp_arr(s@, i as int, fuel as nat)) {
            (Some((v, j)), Some((sv, sj))) => rows_view(v@) == sv && j == sj && j <= n,
            (None, None) => true,
            _ => false,
        },
{
    let j = p_ws(s, n, i + 1);
    if j < n {
        let c = s.get_char(j);
        if c == ']' {
            let empty: Vec<Vec<JsonCell>> = Vec::new();
            proof {
                assert(rows_view(empty@) =~= Seq::<Seq<SpCell>>::empty());
            }
            return Some((empty, j + 1));
        }
        if c == '[' {
            return match p_row(s, n, j, fuel) {
                Some((row, m)) => {
                    let mut first: Vec<Vec<JsonCell>> = Vec::new();
                    proof {
                        assert(rows_view(first@.push(row)) =~= seq![cells_view(row@)]);
                    }
                    first.push(row);
                    p_rows_rest(s, n, m, first, fuel)
                },
                None => None,
            };
        }
    }
    None
}

fn p_value(s: &str, n: usize, i: usize, fuel: usize) -> (r: Option<(JsonValue, usize)>)
    requires
        n == s@.len(),
        i <= n,
    ensures
        match (r, sp_value(s@, i as int, fuel as nat)) {
            (Some((v, j)), Some((sv, sj))) => val_view(v) == sv && j == sj && j <= n,
            (None, None) => true,
            _ => false,
        },
{
    if i < n {
        let c = s.get_char(i);
        if c == '[' {
            return match p_arr(s, n, i, fuel) {
                Some((rows, j)) => Some((JsonValue::Arr(rows), j)),
                None => match p_skip_value(s, n, i, fuel) {
                    Some(j) => Some((JsonValue::Skipped, j)),
                    None => None,
                },
            };
        }
        if c == '"' {
            return match p_str_end(s, n, i + 1) {
                Some(j) => {
                    let text = s.substring_char(i + 1, j).to_owned();
                    Some((JsonValue::Cell(JsonCell::Text(text)), j + 1))
                },
                None => match p_skip_value(s, n, i, fuel) {
                    Some(j) => Some((JsonValue::Skipped, j)),
                    None => None,
                },
            };
        }
        if c == '{' {
            return match p_skip_value(s, n, i, fuel) {
                Some(j) => Some((JsonValue::Skipped, j)),
                None => None,
            };
        }
    }
    match p_cell(s, n, i) {
        Some((cell, j)) => Some((JsonValue::Cell(cell), j)),
        None => None,
    }
}

fn p_member(s: &str, n: usize, i: usize, fuel: usize) -> (r: Option<((String, JsonValue), usize)>)
    requires
        n == s@.len(),
        i <= n,
    ensures
        match (r, sp_member(s@, i as int, fuel as nat)) {
            (Some(((key, v), j)), Some(((sk, sv), sj))) => key@ == sk && val_view(v) == sv && j
                == sj && j <= n,
            (None, None) => true,
            _ => false,
        },
{
    if i < n {
        let c = s.get_char(i);
        if c == '"' {
            return match p_str_skip(s, n, i + 1) {
                Some(j) => {
                    let key = s.substring_char(i + 1, j).to_owned();
                    let k = p_ws(s, n, j + 1);
                    if k < n {
                        let ck = s.get_char(k);
                        if ck == ':' {
                            let m = p_ws(s, n, k + 1);
                            return match p_value(s, n, m, fuel) {
                                Some((v, end)) => Some(((key, v), end)),
                                None => None,
                            };
                        }
                    }
                    None
                },
                None => None,
            };
        }
    }
    None
}

fn p_members_rest(
    s: &str,
    n: usize,
    i: usize,
    acc: Vec<(String, JsonValue)>,
    fuel: usize,
) -> (r: Option<(Vec<(String, JsonValue)>, usize)>)
    requires
        n == s@.len(),
        i <= n,
    ensures
        match (r, sp_members_rest(s@, i as int, members_view(acc@), fuel as nat)) {
            (Some((v, j)), Some((sv, sj))) => members_view(v@) == sv && j == sj && j <= n,
            (None, None) => true,
            _ => false,
        },
    decreases fuel,
{
    if fuel == 0 {
        return None;
    }
    let j = p_ws(s, n, i);
    if j < n {
        let c = s.get_char(j);
        if c == '}' {
            return Some((acc, j + 1));
        }
        if c == ',' {
            let k = p_ws(s, n, j + 1);
            return match p_member(s, n, k, fuel) {
                Some((mb, m)) => {
                    let mut acc2 = acc;
                    proof {
                        assert(members_view(acc2@.push(mb)) =~= members_view(acc2@).push(
                            (mb.0@, val_view(mb.1)),
                        ));
                    }
                    acc2.push(mb);
                    p_members_rest(s, n, m, acc2, fuel - 1)
                },
                None => None,
            };
        }
    }
    None
}

/// Parses one whole frame into its members, or `None` when the text does
/// not match the wire subset.
pub fn parse_frame_members(s: &str) -> (r: Option<Vec<(String, JsonValue)>>)
    ensures
        match (r, sp_frame_members(s@)) {
            (Some(v), Some(sv)) => members_view(v@) == sv,
            (None, None) => true,
            _ => false,
        },
{
    let n = s.unicode_len();
    let j = p_ws(s, n, 0);
    if j < n {
        let c = s.get_char(j);
        if c == '{' {
            let k = p_ws(s, n, j + 1);
            if k < n && fetch_char(s, n, k) == '}' {
                if p_ws(s, n, k + 1) == n {
                    let empty: Vec<(String, JsonValue)> = Vec::new();
                    proof {
                        assert(members_view(empty@) =~= Seq::<(Seq<char>, SpVal)>::empty());
                    }
                    return Some(empty);
                }
                return None;
            }
            {
                return match p_member(s, n, k, n) {
                    Some((mb, m)) => {
                        let mut first: Vec<(String, JsonValue)> = Vec::new();
                        proof {
                            assert(members_view(first@.push(mb)) =~= seq![
                                (mb.0@, val_view(mb.1)),
                            ]);
                        }
                        first.push(mb);
                        match p_members_rest(s, n, m, first, n) {
                            Some((ms, end)) => {
                                if p_ws(s, n, end) == n {
                                    Some(ms)
                                } else {
                                    None
                                }
                            },
                            None => None,
                        }
                    },
                    None => None,
                };
            }
        }
    }
    None
}

/// The character at `i`.
fn fetch_char(s: &str, n: usize, i: usize) -> (c: char)
    requires
        n == s@.len(),
        i < n,
    ensures
        c == s@[i as int],
{
    s.get_char(i)
}

} // verus!
