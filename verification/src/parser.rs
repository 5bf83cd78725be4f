//! Structural matching of a token sequence against the fixed command
//! grammar. Every token sequence yields exactly one validated command or
//! one diagnostic; keywords are case-sensitive and pinned at fixed
//! positions.

use vstd::prelude::*;
use crate::error::DbError;
use crate::num::int32_of;
use crate::num::parse_i32;
use crate::strutil::str_eq;

verus! {

/// A validated, executable representation of one parsed command.
#[derive(Debug, PartialEq)]
pub enum Command {
    /// `CREATE TABLE <name> <col>:<type>...`
    CreateTable { name: String, cols: Vec<(String, String)> },
    /// `SHOW TABLES`
    ShowTables,
    /// `DROP TABLE <name>`
    DropTable { name: String },
    /// `INSERT <table> <value>...`
    Insert { table: String, values: Vec<String> },
    /// `SELECT * FROM <table>`
    SelectAll { table: String },
    /// `SELECT * FROM <table> WHERE <col> = <int>`
    SelectWhere { table: String, column: String, target: i32 },
    /// `HELP`
    Help,
    /// `EXIT`
    Exit,
}

/// The token views, in order.
pub open spec fn toks_view(tokens: Seq<String>) -> Seq<Seq<char>> {
    tokens.map_values(|s: String| s@)
}

pub open spec fn is_create_shape(t: Seq<Seq<char>>) -> bool {
    t.len() >= 3 && t[0] == "CREATE"@ && t[1] == "TABLE"@
}

pub open spec fn is_show_shape(t: Seq<Seq<char>>) -> bool {
    t.len() == 2 && t[0] == "SHOW"@ && t[1] == "TABLES"@
}

pub open spec fn is_drop_shape(t: Seq<Seq<char>>) -> bool {
    t.len() == 3 && t[0] == "DROP"@ && t[1] == "TABLE"@
}

pub open spec fn is_insert_shape(t: Seq<Seq<char>>) -> bool {
    t.len() >= 2 && t[0] == "INSERT"@
}

pub open spec fn is_select_all_shape(t: Seq<Seq<char>>) -> bool {
    t.len() == 4 && t[0] == "SELECT"@ && t[1] == "*"@ && t[2] == "FROM"@
}

pub open spec fn is_select_where_shape(t: Seq<Seq<char>>) -> bool {
    t.len() == 8 && t[0] == "SELECT"@ && t[1] == "*"@ && t[2] == "FROM"@ && t[4] == "WHERE"@ && t[6]
        == "="@
}

pub open spec fn is_help_shape(t: Seq<Seq<char>>) -> bool {
    t.len() == 1 && t[0] == "HELP"@
}

pub open spec fn is_exit_shape(t: Seq<Seq<char>>) -> bool {
    t.len() == 1 && t[0] == "EXIT"@
}

/// No command shape matches `t`.
pub open spec fn no_shape(t: Seq<Seq<char>>) -> bool {
    &&& !is_create_shape(t)
    &&& !is_show_shape(t)
    &&& !is_drop_shape(t)
    &&& !is_insert_shape(t)
    &&& !is_select_all_shape(t)
    &&& !is_select_where_shape(t)
    &&& !is_help_shape(t)
    &&& !is_exit_shape(t)
}

/// The colon at position `k` splits the column specification `s` into a
/// non-empty name and a non-empty type tag, and is the only colon in it.
pub open spec fn colspec_split_at(s: Seq<char>, k: int) -> bool {
    &&& 1 <= k <= s.len() - 2
    &&& s[k] == ':'
    &&& forall|m: int| 0 <= m < s.len() && m != k ==> s[m] != ':'
}

/// `s` splits into exactly two non-empty parts on `:`.
pub open spec fn valid_colspec(s: Seq<char>) -> bool {
    exists|k: int| colspec_split_at(s, k)
}

/// `p` is the name and type tag that the column specification `s` splits
/// into.
pub open spec fn colspec_parsed(s: Seq<char>, p: (String, String)) -> bool {
    exists|k: int| #[trigger] colspec_split_at(s, k) && p.0@ == s.take(k) && p.1@ == s.skip(k + 1)
}

/// Splits one `name:type` column specification, or refuses it.
fn split_colspec(s: &String) -> (r: Option<(String, String)>)
    ensures
        match r {
            Some(p) => colspec_parsed(s@, p),
            None => !valid_colspec(s@),
        },
{
    let st = s.as_str();
    let n = st.unicode_len();
    let mut kf: usize = 0;
    let mut found: bool = false;
    let mut i: usize = 0;
    while i < n
        invariant
            i <= n,
            n == s@.len(),
            st@ == s@,
            found ==> kf < i && s@[kf as int] == ':',
            forall|m: int| 0 <= m < i && (!found || m != kf) ==> s@[m] != ':',
        decreases n - i,
    {
        let c = st.get_char(i);
        if c == ':' {
            if found {
                assert forall|k: int| !colspec_split_at(s@, k) by {
                    if colspec_split_at(s@, k) {
                        if k == kf as int {
                            assert(s@[i as int] != ':');
                        } else {
                            assert(s@[kf as int] != ':');
                        }
                    }
                }
                return None;
            }
            kf = i;
            found = true;
        }
        i = i + 1;
    }
    if !found {
        assert forall|k: int| !colspec_split_at(s@, k) by {
            if colspec_split_at(s@, k) {
                assert(s@[k] != ':');
            }
        }
        return None;
    }
    if kf == 0 || kf + 1 >= n {
        assert forall|k: int| !colspec_split_at(s@, k) by {
            if colspec_split_at(s@, k) {
                if k != kf as int {
                    assert(s@[k] != ':');
                }
            }
        }
        return None;
    }
    let name = st.substring_char(0, kf).to_owned();
    let tag = st.substring_char(kf + 1, n).to_owned();
    proof {
        assert(colspec_split_at(s@, kf as int));
        assert(name@ =~= s@.take(kf as int));
        assert(tag@ =~= s@.skip(kf as int + 1));
    }
    Some((name, tag))
}

/// Matches `tokens` against the grammar. Exactly one of a command or a
/// diagnostic comes back: a malformed CREATE column specification is a
/// syntax error carrying the first offending specification, a
/// non-integer WHERE value is refused at parse time, and a token sequence
/// that fits no shape is an invalid command.
pub fn parse(tokens: &Vec<String>) -> (r: Result<Command, DbError>)
    ensures
        ({
            let t = toks_view(tokens@);
            match r {
                Ok(cmd) => match cmd {
                    Command::CreateTable { name, cols } => {
                        &&& is_create_shape(t)
                        &&& name@ == t[2]
                        &&& cols@.len() == t.len() - 3
                        &&& (forall|i: int|
                            0 <= i < cols@.len() ==> colspec_parsed(t[3 + i], #[trigger] cols@[i]))
                    },
                    Command::ShowTables => is_show_shape(t),
                    Command::DropTable { name } => is_drop_shape(t) && name@ == t[2],
                    Command::Insert { table, values } => {
                        &&& is_insert_shape(t)
                        &&& table@ == t[1]
                        &&& values@.len() == t.len() - 2
                        &&& (forall|i: int|
                            0 <= i < values@.len() ==> (#[trigger] values@[i])@ == t[i + 2])
                    },
                    Command::SelectAll { table } => is_select_all_shape(t) && table@ == t[3],
                    Command::SelectWhere { table, column, target } => {
                        &&& is_select_where_shape(t)
                        &&& table@ == t[3]
                        &&& column@ == t[5]
                        &&& int32_of(t[7]) == Some(target)
                    },
                    Command::Help => is_help_shape(t),
                    Command::Exit => is_exit_shape(t),
                },
                Err(e) => match e {
                    DbError::Syntax(tok) => {
                        &&& is_create_shape(t)
                        &&& (exists|i: int|
                            {
                                &&& 3 <= i < t.len()
                                &&& tok@ == t[i]
                                &&& !valid_colspec(t[i])
                                &&& (forall|m: int| 3 <= m < i ==> valid_colspec(t[m]))
                            })
                    },
                    DbError::NonIntegerFilter => is_select_where_shape(t) && int32_of(t[7]) is None,
                    DbError::InvalidCommand => no_shape(t),
                    _ => false,
                },
            }
        }),
{
    let n = tokens.len();
    if n >= 3 && str_eq(tokens[0].as_str(), "CREATE") && str_eq(tokens[1].as_str(), "TABLE") {
        let mut cols: Vec<(String, String)> = Vec::new();
        let mut i: usize = 3;
        while i < n
            invariant
                3 <= i <= n,
                n == tokens@.len(),
                is_create_shape(toks_view(tokens@)),
                cols@.len() == i - 3,
                forall|m: int| 3 <= m < i ==> valid_colspec(tokens@[m]@),
                forall|q: int|
                    0 <= q < cols@.len() ==> colspec_parsed(tokens@[3 + q]@, #[trigger] cols@[q]),
            decreases n - i,
        {
            let ghost oldcols = cols@;
            match split_colspec(&tokens[i]) {
                Some(p) => {
                    let ghost ti = tokens@[i as int]@;
                    cols.push(p);
                    proof {
                        assert forall|q: int|
                            0 <= q < cols@.len() implies colspec_parsed(
                            tokens@[3 + q]@,
                            #[trigger] cols@[q],
                        ) by {
                            if q < oldcols.len() {
                                assert(cols@[q] == oldcols[q]);
                                assert(colspec_parsed(tokens@[3 + q]@, oldcols[q]));
                            } else {
                                assert(3 + q == i);
                                assert(cols@[q] == p);
                                assert(colspec_parsed(ti, p));
                            }
                        }
                    }
                },
                None => {
                    proof {
                        let t = toks_view(tokens@);
                        assert(t[i as int] == tokens@[i as int]@);
                        assert(!valid_colspec(t[i as int]));
                        assert forall|m: int| 3 <= m < i implies valid_colspec(t[m]) by {
                            assert(t[m] == tokens@[m]@);
                        }
                    }
                    return Err(DbError::Syntax(tokens[i].clone()));
                },
            }
            i = i + 1;
        }
        proof {
            let t = toks_view(tokens@);
            assert forall|q: int|
                0 <= q < cols@.len() implies colspec_parsed(t[3 + q], #[trigger] cols@[q]) by {
                assert(t[3 + q] == tokens@[3 + q]@);
                assert(colspec_parsed(tokens@[3 + q]@, cols@[q]));
            }
        }
        Ok(Command::CreateTable { name: tokens[2].clone(), cols })
    } else if n == 2 && str_eq(tokens[0].as_str(), "SHOW") && str_eq(tokens[1].as_str(), "TABLES") {
        Ok(Command::ShowTables)
    } else if n == 3 && str_eq(tokens[0].as_str(), "DROP") && str_eq(tokens[1].as_str(), "TABLE") {
        Ok(Command::DropTable { name: tokens[2].clone() })
    } else if n >= 2 && str_eq(tokens[0].as_str(), "INSERT") {
        let mut values: Vec<String> = Vec::new();
        let mut i: usize = 2;
        while i < n
            invariant
                2 <= i <= n,
                n == tokens@.len(),
                values@.len() == i - 2,
                forall|q: int| 0 <= q < values@.len() ==> (#[trigger] values@[q])@ == tokens@[q + 2]@,
            decreases n - i,
        {
            values.push(tokens[i].clone());
            i = i + 1;
        }
        Ok(Command::Insert { table: tokens[1].clone(), values })
    } else if n == 4 && str_eq(tokens[0].as_str(), "SELECT") && str_eq(tokens[1].as_str(), "*")
        && str_eq(tokens[2].as_str(), "FROM") {
        Ok(Command::SelectAll { table: tokens[3].clone() })
    } else if n == 8 && str_eq(tokens[0].as_str(), "SELECT") && str_eq(tokens[1].as_str(), "*")
        && str_eq(tokens[2].as_str(), "FROM") && str_eq(tokens[4].as_str(), "WHERE") && str_eq(
        tokens[6].as_str(),
        "=",
    ) {
        match parse_i32(tokens[7].as_str()) {
            Some(v) => Ok(
                Command::SelectWhere {
                    table: tokens[3].clone(),
                    column: tokens[5].clone(),
                    target: v,
                },
            ),
            None => Err(DbError::NonIntegerFilter),
        }
    } else if n == 1 && str_eq(tokens[0].as_str(), "HELP") {
        Ok(Command::Help)
    } else if n == 1 && str_eq(tokens[0].as_str(), "EXIT") {
        Ok(Command::Exit)
    } else {
        Err(DbError::InvalidCommand)
    }
}

} // verus!
