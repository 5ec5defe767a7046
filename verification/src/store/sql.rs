//! Query text and the values bound to it. Values never enter the text: each
//! stands behind a placeholder.

use vstd::prelude::*;

verus! {

/// A value bound to a placeholder.
#[derive(Debug, Clone)]
pub enum Bind {
    Text(String),
    Unsigned(u64),
}

pub ghost enum BindModel {
    Text(Seq<char>),
    Unsigned(u64),
}

impl View for Bind {
    type V = BindModel;

    open spec fn view(&self) -> BindModel {
        match self {
            Bind::Text(t) => BindModel::Text(t@),
            Bind::Unsigned(n) => BindModel::Unsigned(*n),
        }
    }
}

pub open spec fn bind_models(binds: Seq<Bind>) -> Seq<BindModel> {
    binds.map_values(|b: Bind| b@)
}

/// A query and what is bound to it, in order.
#[derive(Debug, Clone)]
pub struct Query {
    pub sql: String,
    pub binds: Vec<Bind>,
}

pub ghost struct QueryModel {
    pub sql: Seq<char>,
    pub binds: Seq<BindModel>,
}

impl View for Query {
    type V = QueryModel;

    open spec fn view(&self) -> QueryModel {
        QueryModel { sql: self.sql@, binds: bind_models(self.binds@) }
    }
}

impl QueryModel {
    /// Every placeholder has its value, and every value its placeholder.
    pub open spec fn balanced(self) -> bool {
        marks(self.sql) == self.binds.len()
    }
}

/// Placeholders among the first `n` characters.
pub open spec fn marks_upto(s: Seq<char>, n: nat) -> nat
    decreases n,
{
    if n == 0 || n > s.len() {
        0
    } else {
        marks_upto(s, (n - 1) as nat) + if s[n - 1] == '?' {
            1nat
        } else {
            0
        }
    }
}

/// Placeholders in a query text.
pub open spec fn marks(s: Seq<char>) -> nat {
    marks_upto(s, s.len())
}

/// A text without a question mark has no placeholder.
pub proof fn lemma_no_marks(s: Seq<char>, n: nat)
    requires
        n <= s.len(),
        forall|k: int| 0 <= k < n ==> s[k] != '?',
    ensures
        marks_upto(s, n) == 0,
    decreases n,
{
    if n > 0 {
        lemma_no_marks(s, (n - 1) as nat);
    }
}

proof fn lemma_marks_upto_add(a: Seq<char>, b: Seq<char>, n: nat)
    requires
        n <= a.len() + b.len(),
    ensures
        n <= a.len() ==> marks_upto(a + b, n) == marks_upto(a, n),
        n > a.len() ==> marks_upto(a + b, n) == marks(a) + marks_upto(b, (n - a.len()) as nat),
    decreases n,
{
    if n > 0 {
        lemma_marks_upto_add(a, b, (n - 1) as nat);
        if n <= a.len() {
            assert((a + b)[n - 1] == a[n - 1]);
        } else {
            assert((a + b)[n - 1] == b[n - 1 - a.len()]);
            assert(marks_upto(b, 0) == 0);
        }
    }
}

/// Texts keep their placeholders when they are put together.
pub broadcast proof fn lemma_marks_add(a: Seq<char>, b: Seq<char>)
    ensures
        #[trigger] marks(a + b) == marks(a) + marks(b),
{
    lemma_marks_upto_add(a, b, (a.len() + b.len()) as nat);
}

} // verus!
