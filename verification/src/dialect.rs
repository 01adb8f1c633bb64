//! Identifier rules of a SQL dialect in which a table may be named by a URL.

use vstd::prelude::*;
use vstd::string::*;

verus! {

/// Whether `ch` may begin an identifier: an ASCII letter or an underscore.
pub open spec fn identifier_start(ch: char) -> bool {
    ||| 'a' <= ch <= 'z'
    ||| 'A' <= ch <= 'Z'
    ||| ch == '_'
}

/// Whether `ch` may continue an identifier: an ASCII letter or digit, or one of
/// the characters that occur in a URL: `:` `/` `?` `&` `=` `-` `_` `.`
pub open spec fn identifier_part(ch: char) -> bool {
    ||| 'a' <= ch <= 'z'
    ||| 'A' <= ch <= 'Z'
    ||| '0' <= ch <= '9'
    ||| ch == ':'
    ||| ch == '/'
    ||| ch == '?'
    ||| ch == '&'
    ||| ch == '='
    ||| ch == '-'
    ||| ch == '_'
    ||| ch == '.'
}

/// A SQL dialect whose identifiers may hold a whole URL.
#[derive(Debug, Clone, Copy)]
pub struct TyrDialect;

impl Default for TyrDialect {
    fn default() -> (dialect: Self)
        ensures
            dialect == TyrDialect,
    {
        TyrDialect
    }
}

impl TyrDialect {
    pub fn is_identifier_start(&self, ch: char) -> (accepted: bool)
        ensures
            accepted == identifier_start(ch),
    {
        ('a' <= ch && ch <= 'z') || ('A' <= ch && ch <= 'Z') || ch == '_'
    }

    pub fn is_identifier_part(&self, ch: char) -> (accepted: bool)
        ensures
            accepted == identifier_part(ch),
    {
        ('a' <= ch && ch <= 'z') || ('A' <= ch && ch <= 'Z') || ('0' <= ch && ch <= '9')
            || ch == ':' || ch == '/' || ch == '?' || ch == '&' || ch == '=' || ch == '-'
            || ch == '_' || ch == '.'
    }
}

/// The query that `example_sql` returns, for the data set at `url`.
pub open spec fn example_query(url: Seq<char>) -> Seq<char> {
    "SELECT location name, total_cases, new_cases, total_deaths, new_deaths FROM "@ + url
        + " WHERE new_deaths > 10 ORDER BY new_cases DESC LIMIT 2"@
}

/// A sample query in this dialect: the two locations with the most new cases
/// among those with more than ten new deaths, read from a public data set that
/// the `FROM` clause names by its URL.
pub fn example_sql() -> (sql: String)
    ensures
        sql@ == example_query(
            "https://raw.githubusercontent.com/owid/covid-19-data/master/public/data/latest/owid-covid-latest.csv"@,
        ),
{
    let url =
        "https://raw.githubusercontent.com/owid/covid-19-data/master/public/data/latest/owid-covid-latest.csv";
    let mut sql = String::from_str(
        "SELECT location name, total_cases, new_cases, total_deaths, new_deaths FROM ",
    );
    sql.append(url);
    sql.append(" WHERE new_deaths > 10 ORDER BY new_cases DESC LIMIT 2");
    sql
}

/// Every character that may begin an identifier may also continue one.
pub proof fn start_is_part(ch: char)
    requires
        identifier_start(ch),
    ensures
        identifier_part(ch),
{
}

} // verus!
