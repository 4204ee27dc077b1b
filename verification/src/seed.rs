use vstd::prelude::*;
use vstd::string::*;

use crate::text::push_char;

verus! {

/// How one character stands inside a single-quoted SQL literal: a quote is
/// doubled, everything else stands as it is.
pub open spec fn sql_char(c: char) -> Seq<char> {
    if c == '\'' {
        seq!['\'', '\'']
    } else {
        seq![c]
    }
}

/// `s` with every `'` doubled, as `str::replace(s, "'", "''")` gives it.
pub open spec fn sql_escape(s: Seq<char>) -> Seq<char>
    decreases s.len(),
{
    if s.len() == 0 {
        Seq::empty()
    } else {
        sql_char(s[0]) + sql_escape(s.drop_first())
    }
}

/// How SQL reads the inside of a single-quoted literal: `''` stands for one
/// `'`.
pub open spec fn sql_unescape(t: Seq<char>) -> Seq<char>
    decreases t.len(),
{
    if t.len() == 0 {
        Seq::empty()
    } else if t.len() >= 2 && t[0] == '\'' && t[1] == '\'' {
        seq!['\''] + sql_unescape(t.skip(2))
    } else {
        seq![t[0]] + sql_unescape(t.skip(1))
    }
}

proof fn lemma_sql_escape_append(a: Seq<char>, b: Seq<char>)
    ensures
        sql_escape(a + b) == sql_escape(a) + sql_escape(b),
    decreases a.len(),
{
    if a.len() == 0 {
        assert(a + b =~= b);
        assert(sql_escape(a) + sql_escape(b) =~= sql_escape(b));
    } else {
        assert((a + b).drop_first() =~= a.drop_first() + b);
        lemma_sql_escape_append(a.drop_first(), b);
        assert(sql_escape(a + b) =~= sql_escape(a) + sql_escape(b));
    }
}

/// A name written into a SQL literal reads back as the same name: escaping
/// loses nothing and lets no quote end the literal early.
pub proof fn sql_escape_reads_back(s: Seq<char>)
    ensures
        sql_unescape(sql_escape(s)) == s,
    decreases s.len(),
{
    if s.len() > 0 {
        sql_escape_reads_back(s.drop_first());
        let t = sql_escape(s);
        let rest = sql_escape(s.drop_first());
        if s[0] == '\'' {
            assert(t.skip(2) =~= rest);
        } else {
            assert(t.skip(1) =~= rest);
        }
        assert(sql_unescape(t) =~= s);
    }
}

/// Appends `s` to `out` with every `'` doubled.
pub fn append_sql_escaped(out: &mut String, s: &str)
    ensures
        final(out)@ == old(out)@ + sql_escape(s@),
{
    let n = s.unicode_len();
    let ghost start = out@;
    let mut i: usize = 0;
    assert(s@.take(0) =~= Seq::<char>::empty());
    assert(start + sql_escape(Seq::empty()) =~= start);
    while i < n
        invariant
            n == s@.len(),
            i <= n,
            out@ == start + sql_escape(s@.take(i as int)),
        decreases n - i,
    {
        let c = s.get_char(i);
        proof {
            assert(s@.take(i + 1) =~= s@.take(i as int) + seq![c]);
            lemma_sql_escape_append(s@.take(i as int), seq![c]);
            assert(seq![c].drop_first() =~= Seq::<char>::empty());
            assert(sql_escape(Seq::<char>::empty()) =~= Seq::<char>::empty());
            assert(sql_escape(seq![c]) =~= sql_char(c));
        }
        if c == '\'' {
            push_char(out, '\'');
            push_char(out, '\'');
        } else {
            push_char(out, c);
        }
        assert(out@ =~= start + sql_escape(s@.take(i + 1)));
        i = i + 1;
    }
    assert(s@.take(n as int) =~= s@);
}

/// The statement that inserts one person into the `people` table.
pub open spec fn insert_statement_spec(id: Seq<char>, first_name: Seq<char>, last_name: Seq<char>) -> Seq<char> {
    "insert into people (id, first_name, last_name) values ('"@ + id + "','"@ + sql_escape(first_name)
        + "','"@ + sql_escape(last_name) + "');\n"@
}

/// The seed statement that inserts the person `id` with the given names, the
/// names escaped for the SQL literal.
pub fn insert_statement(id: &str, first_name: &str, last_name: &str) -> (r: String)
    ensures
        r@ == insert_statement_spec(id@, first_name@, last_name@),
        r@ == "insert into people (id, first_name, last_name) values ('"@ + id@ + "','"@ + sql_escape(
            first_name@,
        ) + "','"@ + sql_escape(last_name@) + "');\n"@,
{
    let mut out = String::from_str("insert into people (id, first_name, last_name) values ('");
    out.append(id);
    out.append("','");
    append_sql_escaped(&mut out, first_name);
    out.append("','");
    append_sql_escaped(&mut out, last_name);
    out.append("');\n");
    out
}

/// Whatever the id and first name, the statement for a person is the
/// statement for the same person with an empty last name, with the escaped
/// last name put in before the closing `');` and newline; and that literal
/// reads back as the last name.
pub proof fn last_name_literal_is_escaped(id: Seq<char>, first_name: Seq<char>, last_name: Seq<char>)
    ensures
        insert_statement_spec(id, first_name, Seq::empty()).len() >= 4,
        insert_statement_spec(id, first_name, last_name) == insert_statement_spec(
            id,
            first_name,
            Seq::empty(),
        ).take(insert_statement_spec(id, first_name, Seq::empty()).len() - 4) + sql_escape(last_name)
            + insert_statement_spec(id, first_name, Seq::empty()).skip(
            insert_statement_spec(id, first_name, Seq::empty()).len() - 4,
        ),
        insert_statement_spec(id, first_name, Seq::empty()).skip(
            insert_statement_spec(id, first_name, Seq::empty()).len() - 4,
        ) == seq!['\'', ')', ';', '\n'],
        sql_unescape(sql_escape(last_name)) == last_name,
{
    reveal_strlit("');\n");
    sql_escape_reads_back(last_name);
    let s0 = insert_statement_spec(id, first_name, Seq::empty());
    let head = "insert into people (id, first_name, last_name) values ('"@ + id + "','"@ + sql_escape(
        first_name,
    ) + "','"@;
    assert(sql_escape(Seq::<char>::empty()) =~= Seq::<char>::empty());
    assert(s0 =~= head + "');\n"@);
    assert(s0.take(s0.len() - 4) =~= head);
    assert(s0.skip(s0.len() - 4) =~= "');\n"@);
    assert(insert_statement_spec(id, first_name, last_name) =~= head + sql_escape(last_name) + "');\n"@);
}

} // verus!
