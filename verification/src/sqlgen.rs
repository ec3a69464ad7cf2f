//! Parameterized SQL text generation.
//!
//! Statements carry their literal values only through numbered bind
//! placeholders; the only text ever interpolated is produced here
//! from row counts and, in the query builder, from a fixed column
//! whitelist.

use vstd::prelude::*;

use crate::codec::dec_of;
use crate::model::DbSpanKind;

verus! {

/// One value bound to a statement placeholder, in the order the
/// placeholders are numbered.
#[derive(Debug)]
pub enum BindValue {
    Text(String),
    OptText(Option<String>),
    BigInt(i64),
    OptBigInt(Option<i64>),
    Int(i32),
    TimestampNs(u64),
    OptTimestampNs(Option<u64>),
    Count(usize),
    Kind(DbSpanKind),
}

/// A parameterized SQL statement: its text, with `$n` placeholders,
/// and the values to bind to them in order.
#[derive(Debug)]
pub struct Statement {
    pub sql: String,
    pub binds: Vec<BindValue>,
}

/// The placeholder list text of the first `c` columns of row `r`:
/// `$<r*cols+1>, $<r*cols+2>, ...`.
pub open spec fn params_upto(r: nat, cols: nat, c: nat) -> Seq<char>
    decreases c,
{
    if c <= 0 {
        Seq::empty()
    } else if c == 1 {
        seq!['$'] + dec_of(r * cols + 1)
    } else {
        params_upto(r, cols, (c - 1) as nat) + ", "@ + seq!['$'] + dec_of(r * cols + c)
    }
}

/// The parenthesized placeholder group of row `r`.
pub open spec fn group_sql(r: nat, cols: nat) -> Seq<char> {
    seq!['('] + params_upto(r, cols, cols) + seq![')']
}

/// The placeholder groups of the first `rows` rows, separated by
/// ", ".
pub open spec fn groups_upto(rows: nat, cols: nat) -> Seq<char>
    decreases rows,
{
    if rows <= 0 {
        Seq::empty()
    } else if rows == 1 {
        group_sql(0, cols)
    } else {
        groups_upto((rows - 1) as nat, cols) + ", "@ + group_sql((rows - 1) as nat, cols)
    }
}

/// Appends the placeholder groups for a bulk VALUES clause: one
/// parenthesized group of `$n` placeholders per row, numbered row by
/// row from `$1`.
#[verifier::loop_isolation(false)]
pub fn push_values_sql(sql: &mut String, rows: usize, cols: usize)
    requires
        cols >= 1,
        (rows as nat) * (cols as nat) + 1 <= u64::MAX,
    ensures
        final(sql)@ == old(sql)@ + groups_upto(rows as nat, cols as nat),
{
    proof {
        reveal_strlit("$");
        reveal_strlit("(");
        reveal_strlit(")");
        assert(sql@ =~= old(sql)@ + groups_upto(0, cols as nat));
    }
    let mut r: usize = 0;
    while r < rows
        invariant
            r <= rows,
            sql@ == old(sql)@ + groups_upto(r as nat, cols as nat),
        decreases rows - r,
    {
        proof {
            vstd::arithmetic::mul::lemma_mul_inequality(
                r as int + 1,
                rows as int,
                cols as int,
            );
            vstd::arithmetic::mul::lemma_mul_is_distributive_add_other_way(
                cols as int,
                r as int,
                1,
            );
        }
        if r > 0 {
            sql.append(", ");
        }
        let ghost pre = sql@;
        sql.append("(");
        proof {
            assert(sql@ =~= pre + seq!['('] + params_upto(r as nat, cols as nat, 0));
        }
        let mut c: usize = 0;
        while c < cols
            invariant
                c <= cols,
                sql@ == pre + seq!['('] + params_upto(r as nat, cols as nat, c as nat),
            decreases cols - c,
        {
            if c > 0 {
                sql.append(", ");
            }
            sql.append("$");
            let idx: u64 = (r as u64) * (cols as u64) + (c as u64) + 1;
            let digits = crate::codec::u64_to_dec(idx);
            sql.append(digits.as_str());
            proof {
                assert(sql@ =~= pre + seq!['('] + params_upto(r as nat, cols as nat, (c + 1) as nat));
            }
            c = c + 1;
        }
        sql.append(")");
        proof {
            assert(sql@ =~= pre + group_sql(r as nat, cols as nat));
            assert(sql@ =~= old(sql)@ + groups_upto((r + 1) as nat, cols as nat));
        }
        r = r + 1;
    }
}

} // verus!
