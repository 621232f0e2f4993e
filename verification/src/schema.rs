//! The schema declaration handed to the host engine: the computed column
//! names, comma-separated, no trailing comma, no type annotations.

use vstd::prelude::*;

verus! {

/// The column names joined with commas.
pub open spec fn joined_cols(cols: Seq<Seq<char>>) -> Seq<char>
    decreases cols.len(),
{
    if cols.len() == 0 {
        Seq::empty()
    } else if cols.len() == 1 {
        cols[0]
    } else {
        joined_cols(cols.drop_last()) + seq![','] + cols.last()
    }
}

/// The table declaration for the host: `CREATE TABLE sheet(` then the
/// joined column names and the closing parenthesis. With no columns the
/// opening parenthesis is dropped.
pub open spec fn schema_sql(cols: Seq<Seq<char>>) -> Seq<char> {
    if cols.len() == 0 {
        "CREATE TABLE sheet"@ + seq![')']
    } else {
        "CREATE TABLE sheet("@ + joined_cols(cols) + seq![')']
    }
}

/// Renders the schema declaration from the computed column names.
pub fn declare_table_sql(columns: &Vec<String>) -> (ret: String)
    ensures
        ret@ == schema_sql(columns.deep_view()),
{
    let ghost dv = columns.deep_view();
    let mut sql = String::new();
    if columns.len() == 0 {
        sql.push_str("CREATE TABLE sheet");
        sql.push(')');
        proof {
            assert(sql@ =~= schema_sql(dv));
        }
        return sql;
    }
    sql.push_str("CREATE TABLE sheet(");
    let mut k: usize = 0;
    proof {
        assert(dv.take(0) =~= Seq::<Seq<char>>::empty());
        assert(sql@ =~= "CREATE TABLE sheet("@ + joined_cols(dv.take(0)));
    }
    while k < columns.len()
        invariant
            k <= columns@.len(),
            dv == columns.deep_view(),
            dv.len() == columns@.len(),
            sql@ == "CREATE TABLE sheet("@ + joined_cols(dv.take(k as int)),
        decreases columns@.len() - k,
    {
        let ghost pre = dv.take(k as int);
        let ghost post = dv.take(k + 1);
        proof {
            assert(post.drop_last() =~= pre);
            assert(post.last() == dv[k as int]);
        }
        if k > 0 {
            sql.push(',');
        }
        sql.push_str(columns[k].as_str());
        proof {
            if k == 0 {
                assert(sql@ =~= "CREATE TABLE sheet("@ + joined_cols(post));
            } else {
                assert(joined_cols(post) == joined_cols(pre) + seq![','] + post.last());
                assert(sql@ =~= "CREATE TABLE sheet("@ + joined_cols(post));
            }
        }
        k = k + 1;
    }
    proof {
        assert(dv.take(columns@.len() as int) =~= dv);
    }
    sql.push(')');
    proof {
        assert(sql@ =~= schema_sql(dv));
    }
    sql
}

} // verus!
