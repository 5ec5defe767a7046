//! Rule sets, and running a set over events.

use vstd::prelude::*;

use crate::model::NormalizedEvent;
use crate::rule;
use crate::rule::eval;
use crate::rule::eval::{evidence, EventView};
use crate::rule::parser;
use crate::rule::parser::{parse_rules, rule_sources, ParseRuleError};
use crate::rule::Rule;
use crate::split;
use crate::split::{concat, has_suffix};
use crate::text;
use crate::text::same;
use crate::textmap::TextMap;

verus! {

/// A rule file that could not be read as rules. It disables only itself.
#[derive(Debug)]
pub struct RuleError {
    pub path: String,
    pub message: String,
}

pub ghost struct ErrorModel {
    pub path: Seq<char>,
    pub message: Seq<char>,
}

impl View for RuleError {
    type V = ErrorModel;

    open spec fn view(&self) -> ErrorModel {
        ErrorModel { path: self.path@, message: self.message@ }
    }
}

pub open spec fn error_models(errors: Seq<RuleError>) -> Seq<ErrorModel> {
    Seq::new(errors.len(), |i: int| errors[i]@)
}

/// Rules by distinct ids, and the files that could not be read.
#[derive(Debug)]
pub struct RuleSet {
    rules: Vec<Rule>,
    /// Source text by rule id.
    sources: TextMap<String>,
    /// Whether the user wrote the rule of that id.
    user: TextMap<bool>,
    errors: Vec<RuleError>,
}

pub ghost struct SetModel {
    pub rules: Seq<rule::RuleModel>,
    pub sources: Map<Seq<char>, Seq<char>>,
    pub user: Map<Seq<char>, bool>,
    pub errors: Seq<ErrorModel>,
}

impl View for RuleSet {
    type V = SetModel;

    closed spec fn view(&self) -> SetModel {
        SetModel {
            rules: rule::rule_models(self.rules@),
            sources: rule::texts_of(self.sources@),
            user: self.user@,
            errors: error_models(self.errors@),
        }
    }
}

pub open spec fn distinct_ids(rules: Seq<rule::RuleModel>) -> bool {
    forall|i: int, j: int|
        0 <= i < j < rules.len() ==> (#[trigger] rules[i]).id != (#[trigger] rules[j]).id
}

/// Position of the rule with this id.
pub open spec fn index_from(rules: Seq<rule::RuleModel>, id: Seq<char>, i: int) -> Option<int>
    decreases rules.len() - i,
{
    if i < 0 || i >= rules.len() {
        None
    } else if rules[i].id == id {
        Some(i)
    } else {
        index_from(rules, id, i + 1)
    }
}

/// The rule takes the place of one with its id, or comes last.
pub open spec fn put(rules: Seq<rule::RuleModel>, rule: rule::RuleModel) -> Seq<rule::RuleModel> {
    match index_from(rules, rule.id, 0) {
        Some(i) => rules.update(i, rule),
        None => rules.push(rule),
    }
}

/// The first `n` of `new` put one after the other.
pub open spec fn put_all(rules: Seq<rule::RuleModel>, new: Seq<rule::RuleModel>, n: nat) -> Seq<
    rule::RuleModel,
>
    decreases n,
{
    if n == 0 || n > new.len() {
        rules
    } else {
        put(put_all(rules, new, (n - 1) as nat), new[n - 1])
    }
}

/// The first `n` cut texts stored under their ids.
pub open spec fn store_cuts(
    sources: Map<Seq<char>, Seq<char>>,
    cuts: Seq<parser::Cut>,
    n: nat,
) -> Map<Seq<char>, Seq<char>>
    decreases n,
{
    if n == 0 || n > cuts.len() {
        sources
    } else {
        store_cuts(sources, cuts, (n - 1) as nat).insert(cuts[n - 1].id, cuts[n - 1].text)
    }
}

/// The ids of the first `n` rules marked.
pub open spec fn mark(
    user: Map<Seq<char>, bool>,
    rules: Seq<rule::RuleModel>,
    n: nat,
    by_user: bool,
) -> Map<Seq<char>, bool>
    decreases n,
{
    if n == 0 || n > rules.len() {
        user
    } else {
        mark(user, rules, (n - 1) as nat, by_user).insert(rules[n - 1].id, by_user)
    }
}

/// The texts of the rules of a source.
pub open spec fn cuts_of(src: Seq<char>) -> Seq<parser::Cut> {
    match rule::lex::tokens(src) {
        Ok(list) => parser::cuts_from(src, list, 0, 0, None),
        Err(_) => Seq::empty(),
    }
}

/// The set after one more file. A file that does not parse leaves the rules
/// alone and is recorded with its error.
pub open spec fn with_file(
    set: SetModel,
    path: Seq<char>,
    src: Seq<char>,
    by_user: bool,
) -> SetModel {
    match parser::parsed(src) {
        Ok(rules) => SetModel {
            rules: put_all(set.rules, rules, rules.len()),
            sources: store_cuts(set.sources, cuts_of(src), cuts_of(src).len()),
            user: mark(set.user, rules, rules.len(), by_user),
            errors: set.errors,
        },
        Err(e) => SetModel {
            errors: set.errors.push(ErrorModel { path, message: e.shown() }),
            ..set
        },
    }
}

/// The empty set.
pub open spec fn no_rules() -> SetModel {
    SetModel {
        rules: Seq::empty(),
        sources: Map::empty(),
        user: Map::empty(),
        errors: Seq::empty(),
    }
}

/// The set after the first `n` files, each a path and its text.
pub open spec fn with_files(
    set: SetModel,
    files: Seq<(Seq<char>, Seq<char>)>,
    n: nat,
    by_user: bool,
) -> SetModel
    decreases n,
{
    if n == 0 || n > files.len() {
        set
    } else {
        with_file(
            with_files(set, files, (n - 1) as nat, by_user),
            files[n - 1].0,
            files[n - 1].1,
            by_user,
        )
    }
}

pub open spec fn file_models(files: Seq<(String, String)>) -> Seq<(Seq<char>, Seq<char>)> {
    Seq::new(files.len(), |i: int| (files[i].0@, files[i].1@))
}

// --------------------------------------------------------------- lemmas

pub proof fn lemma_index_from(rules: Seq<rule::RuleModel>, id: Seq<char>, i: int)
    requires
        0 <= i,
    ensures
        match index_from(rules, id, i) {
            Some(k) => i <= k < rules.len() && rules[k].id == id && forall|j: int|
                i <= j < k ==> (#[trigger] rules[j]).id != id,
            None => forall|j: int| i <= j < rules.len() ==> (#[trigger] rules[j]).id != id,
        },
    decreases rules.len() - i,
{
    if i < rules.len() && rules[i].id != id {
        lemma_index_from(rules, id, i + 1);
    }
}

/// Putting a rule keeps the ids distinct.
pub proof fn lemma_put_distinct(rules: Seq<rule::RuleModel>, rule: rule::RuleModel)
    requires
        distinct_ids(rules),
    ensures
        distinct_ids(put(rules, rule)),
{
    lemma_index_from(rules, rule.id, 0);
}

proof fn lemma_put_all_distinct(
    rules: Seq<rule::RuleModel>,
    new: Seq<rule::RuleModel>,
    n: nat,
)
    requires
        distinct_ids(rules),
    ensures
        distinct_ids(put_all(rules, new, n)),
    decreases n,
{
    if 0 < n <= new.len() {
        lemma_put_all_distinct(rules, new, (n - 1) as nat);
        lemma_put_distinct(put_all(rules, new, (n - 1) as nat), new[n - 1]);
    }
}

/// Putting rules of distinct ids into an empty set lists them as they are.
proof fn lemma_put_all_fresh(new: Seq<rule::RuleModel>, n: nat)
    requires
        distinct_ids(new),
        n <= new.len(),
    ensures
        put_all(Seq::empty(), new, n) == new.take(n as int),
    decreases n,
{
    if n > 0 {
        lemma_put_all_fresh(new, (n - 1) as nat);
        let before = new.take(n - 1);
        lemma_index_from(before, new[n - 1].id, 0);
        if let Some(k) = index_from(before, new[n - 1].id, 0) {
            assert(new[k].id != new[n - 1].id);
        }
        assert(new.take(n as int) =~= before.push(new[n - 1]));
    } else {
        assert(new.take(0) =~= Seq::empty());
    }
}

impl RuleSet {
    #[verifier::type_invariant]
    spec fn wf(self) -> bool {
        distinct_ids(rule::rule_models(self.rules@))
    }

    pub fn new() -> (set: RuleSet)
        ensures
            set@ == no_rules(),
    {
        let set = RuleSet {
            rules: Vec::new(),
            sources: TextMap::new(),
            user: TextMap::new(),
            errors: Vec::new(),
        };
        proof {
            assert(set@.rules =~= Seq::empty());
            assert(set@.sources =~= Map::empty());
            assert(set@.errors =~= Seq::empty());
        }
        set
    }

    /// The rules, no two with the same id.
    pub fn rules(&self) -> (r: &Vec<Rule>)
        ensures
            rule::rule_models(r@) == self@.rules,
            distinct_ids(self@.rules),
    {
        proof {
            use_type_invariant(self);
        }
        &self.rules
    }

    /// The files that could not be read as rules.
    pub fn errors(&self) -> (r: &Vec<RuleError>)
        ensures
            error_models(r@) == self@.errors,
    {
        &self.errors
    }

    /// The original text of a rule.
    pub fn source(&self, id: &str) -> (r: Option<&str>)
        ensures
            text::opt_str(r) == (if self@.sources.dom().contains(id@) {
                Some(self@.sources[id@])
            } else {
                None
            }),
    {
        match self.sources.get(id) {
            Some(t) => Some(t.as_str()),
            None => None,
        }
    }

    /// The rule was written by the user.
    pub fn is_user(&self, id: &str) -> (b: bool)
        ensures
            b == (self@.user.dom().contains(id@) && self@.user[id@]),
    {
        match self.user.get(id) {
            Some(b) => *b,
            None => false,
        }
    }

    /// The rule with this id.
    pub fn rule(&self, id: &str) -> (r: Option<&Rule>)
        ensures
            match r {
                Some(rule) => rule.id@ == id@ && exists|i: int|
                    0 <= i < self@.rules.len() && #[trigger] self@.rules[i] == rule@,
                None => forall|i: int|
                    0 <= i < self@.rules.len() ==> (#[trigger] self@.rules[i]).id != id@,
            },
    {
        let ghost models = rule::rule_models(self.rules@);
        let mut i: usize = 0;
        while i < self.rules.len()
            invariant
                models == rule::rule_models(self.rules@),
                i <= self.rules@.len(),
                forall|j: int| 0 <= j < i ==> (#[trigger] models[j]).id != id@,
            decreases self.rules@.len() - i,
        {
            if same(self.rules[i].id.as_str(), id) {
                assert(self@.rules[i as int] == self.rules@[i as int]@);
                return Some(&self.rules[i]);
            }
            assert(models[i as int].id == self.rules@[i as int].id@);
            i += 1;
        }
        None
    }

    /// The rules that run on events of this log type, in order.
    pub fn for_log_type(&self, log_type: &str) -> (r: Vec<&Rule>)
        ensures
            borrowed_models(r@) == running(self@.rules, log_type@, self@.rules.len()),
    {
        let ghost models = rule::rule_models(self.rules@);
        let mut r: Vec<&Rule> = Vec::new();
        let mut i: usize = 0;
        assert(borrowed_models(r@) =~= Seq::empty());
        while i < self.rules.len()
            invariant
                models == rule::rule_models(self.rules@),
                i <= self.rules@.len(),
                borrowed_models(r@) == running(models, log_type@, i as nat),
            decreases self.rules@.len() - i,
        {
            assert(models[i as int] == self.rules@[i as int]@);
            if self.rules[i].applies_to(log_type) {
                let ghost before = borrowed_models(r@);
                r.push(&self.rules[i]);
                assert(borrowed_models(r@) =~= before.push(models[i as int]));
            }
            i += 1;
        }
        r
    }

    /// A set of one rule.
    pub fn single(rule: Rule) -> (set: RuleSet)
        ensures
            set@.rules == seq![rule@],
            set@.errors.len() == 0,
            set@.user == Map::<Seq<char>, bool>::empty(),
            set@.sources == Map::<Seq<char>, Seq<char>>::empty(),
    {
        let ghost model = rule@;
        let mut rules: Vec<Rule> = Vec::new();
        rules.push(rule);
        assert(rule::rule_models(rules@) =~= seq![model]);
        let set = RuleSet {
            rules,
            sources: TextMap::new(),
            user: TextMap::new(),
            errors: Vec::new(),
        };
        assert(set@.sources =~= Map::empty());
        set
    }
}

/// The models of borrowed rules.
pub open spec fn borrowed_models(rules: Seq<&Rule>) -> Seq<rule::RuleModel> {
    Seq::new(rules.len(), |i: int| rules[i]@)
}

/// Those of the first `n` rules that run on events of this log type.
pub open spec fn running(rules: Seq<rule::RuleModel>, log_type: Seq<char>, n: nat) -> Seq<
    rule::RuleModel,
>
    decreases n,
{
    if n == 0 || n > rules.len() {
        Seq::empty()
    } else {
        let before = running(rules, log_type, (n - 1) as nat);
        if rules[n - 1].runs_on(log_type) {
            before.push(rules[n - 1])
        } else {
            before
        }
    }
}

/// Position of the rule with this id.
fn find_rule(rules: &Vec<Rule>, id: &str) -> (r: Option<usize>)
    ensures
        match r {
            Some(i) => index_from(rule::rule_models(rules@), id@, 0) == Some(i as int) && i
                < rules@.len(),
            None => index_from(rule::rule_models(rules@), id@, 0) is None,
        },
{
    let ghost models = rule::rule_models(rules@);
    let mut i: usize = 0;
    while i < rules.len()
        invariant
            models == rule::rule_models(rules@),
            i <= rules@.len(),
            index_from(models, id@, 0) == index_from(models, id@, i as int),
        decreases rules@.len() - i,
    {
        assert(models[i as int] == rules@[i as int]@);
        if same(rules[i].id.as_str(), id) {
            return Some(i);
        }
        i += 1;
    }
    None
}

fn put_rule(rules: &mut Vec<Rule>, rule: Rule)
    ensures
        rule::rule_models(final(rules)@) == put(rule::rule_models(old(rules)@), rule@),
{
    let ghost before = rule::rule_models(rules@);
    let ghost model = rule@;
    match find_rule(rules, rule.id.as_str()) {
        Some(i) => {
            let _ = rules.remove(i);
            rules.insert(i, rule);
            assert(rule::rule_models(rules@) =~= before.update(i as int, model));
        },
        None => {
            rules.push(rule);
            assert(rule::rule_models(rules@) =~= before.push(model));
        },
    }
}

impl RuleSet {
    /// Adds the rules of one more file; a file that does not parse is recorded
    /// and changes nothing else.
    pub fn add_file(&mut self, path: &str, src: &str, by_user: bool)
        ensures
            final(self)@ == with_file(old(self)@, path@, src@, by_user),
    {
        proof {
            use_type_invariant(&*self);
        }
        let ghost before = self@;
        let new = match parse_rules(src) {
            Ok(new) => new,
            Err(e) => {
                let error = RuleError { path: path.to_owned(), message: e.message() };
                let ghost model = error@;
                let mut errors: Vec<RuleError> = Vec::new();
                core::mem::swap(&mut errors, &mut self.errors);
                errors.push(error);
                self.errors = errors;
                assert(self@.errors =~= before.errors.push(model));
                return ;
            },
        };
        let ghost models = rule::rule_models(new@);
        let ghost count = models.len();
        let cuts: Vec<(String, String)> = match rule_sources(src) {
            Ok(cuts) => cuts,
            Err(_) => Vec::new(),
        };
        proof {
            assert(parser::cut_models(cuts@) =~= cuts_of(src@));
        }
        let mut rules: Vec<Rule> = Vec::new();
        let mut user: TextMap<bool> = TextMap::new();
        let mut sources: TextMap<String> = TextMap::new();
        core::mem::swap(&mut rules, &mut self.rules);
        core::mem::swap(&mut user, &mut self.user);
        core::mem::swap(&mut sources, &mut self.sources);
        let ghost all = new@;
        for rule in it: new
            invariant
                it.seq() == all,
                models == rule::rule_models(all),
                rule::rule_models(rules@) == put_all(before.rules, models, it.index() as nat),
                user@ == mark(before.user, models, it.index() as nat, by_user),
        {
            let ghost k = it.index() as int;
            assert(models[k] == rule@);
            user.insert(rule.id.clone(), by_user);
            put_rule(&mut rules, rule);
        }
        let mut i: usize = 0;
        while i < cuts.len()
            invariant
                i <= cuts@.len(),
                parser::cut_models(cuts@) == cuts_of(src@),
                rule::texts_of(sources@) == store_cuts(before.sources, cuts_of(src@), i as nat),
            decreases cuts@.len() - i,
        {
            let ghost so_far = rule::texts_of(sources@);
            let cut: &(String, String) = &cuts[i];
            assert(cuts_of(src@)[i as int] == (parser::Cut { id: cut.0@, text: cut.1@ }));
            sources.insert(cut.0.clone(), cut.1.clone());
            assert(rule::texts_of(sources@) =~= so_far.insert(cut.0@, cut.1@));
            i += 1;
        }
        proof {
            lemma_put_all_distinct(before.rules, models, count);
        }
        self.rules = rules;
        self.user = user;
        self.sources = sources;
    }

    fn add_files(&mut self, files: &Vec<(String, String)>, by_user: bool)
        ensures
            final(self)@ == with_files(old(self)@, file_models(files@), files@.len(), by_user),
    {
        let ghost before = self@;
        let mut i: usize = 0;
        while i < files.len()
            invariant
                i <= files@.len(),
                before == old(self)@,
                self@ == with_files(before, file_models(files@), i as nat, by_user),
            decreases files@.len() - i,
        {
            let file: &(String, String) = &files[i];
            assert(file_models(files@)[i as int] == (file.0@, file.1@));
            self.add_file(file.0.as_str(), file.1.as_str(), by_user);
            i += 1;
        }
    }

    /// The rules of one source.
    pub fn from_source(src: &str) -> (r: Result<RuleSet, ParseRuleError>)
        ensures
            match r {
                Ok(set) => {
                    &&& parser::parsed(src@) == Ok::<
                        Seq<rule::RuleModel>,
                        parser::ParseErrorModel,
                    >(set@.rules)
                    &&& set@ == with_file(no_rules(), ""@, src@, false)
                },
                Err(e) => parser::parsed(src@) == Err::<
                    Seq<rule::RuleModel>,
                    parser::ParseErrorModel,
                >(e@),
            },
    {
        match parse_rules(src) {
            Ok(_) => {
                let mut set = RuleSet::new();
                set.add_file("", src, false);
                proof {
                    parser::rule_ids_are_distinct(src@);
                    let rules = parser::parsed(src@)->Ok_0;
                    lemma_put_all_fresh(rules, rules.len());
                    assert(rules.take(rules.len() as int) =~= rules);
                }
                Ok(set)
            },
            Err(e) => Err(e),
        }
    }

    /// The rules of several files, each a path and its text.
    pub fn from_files(files: &Vec<(String, String)>) -> (set: RuleSet)
        ensures
            set@ == with_files(no_rules(), file_models(files@), files@.len(), false),
    {
        let mut set = RuleSet::new();
        set.add_files(files, false);
        set
    }

    /// The shipped rules with the user's laid over them: a user rule replaces
    /// the shipped one with its id, or is added.
    pub fn layered(shipped: &Vec<(String, String)>, user: &Vec<(String, String)>) -> (set: RuleSet)
        ensures
            set@ == with_files(
                with_files(no_rules(), file_models(shipped@), shipped@.len(), false),
                file_models(user@),
                user@.len(),
                true,
            ),
    {
        let mut set = RuleSet::new();
        set.add_files(shipped, false);
        set.add_files(user, true);
        set
    }
}

// ---------------------------------------------------------------- rule files

/// A rule file, by the extension of its name; other files beside them are
/// left alone. A name that is nothing but the extension has none.
pub open spec fn names_rules(name: Seq<char>) -> bool {
    split::ends_with(name, ".yar"@) && name != ".yar"@
}

/// Whether a file holds rules, going by its name.
pub fn is_rule_file(name: &str) -> (b: bool)
    ensures
        b == names_rules(name@),
{
    has_suffix(name, ".yar") && !same(name, ".yar")
}

/// The files of a case's rule snapshot: the shipped ones under their own
/// names, then the user's, prefixed.
pub open spec fn snapshot(
    shipped: Seq<(Seq<char>, Seq<char>)>,
    user: Seq<(Seq<char>, Seq<char>)>,
) -> Seq<(Seq<char>, Seq<char>)> {
    shipped + Seq::new(user.len(), |i: int| ("user-"@ + user[i].0, user[i].1))
}

/// The files to write into a case, so that its results stay explainable after
/// the rules change. User files are prefixed so they cannot overwrite a
/// shipped file.
pub fn snapshot_files(
    shipped: &Vec<(String, String)>,
    user: &Vec<(String, String)>,
) -> (files: Vec<(String, String)>)
    ensures
        file_models(files@) == snapshot(file_models(shipped@), file_models(user@)),
{
    let mut files: Vec<(String, String)> = Vec::new();
    let mut i: usize = 0;
    while i < shipped.len()
        invariant
            i <= shipped@.len(),
            file_models(files@) == file_models(shipped@).take(i as int),
        decreases shipped@.len() - i,
    {
        let file: &(String, String) = &shipped[i];
        let ghost before = file_models(files@);
        files.push((file.0.as_str().to_owned(), file.1.as_str().to_owned()));
        assert(file_models(files@) =~= before.push((file.0@, file.1@)));
        assert(file_models(shipped@).take(i + 1) =~= before.push((file.0@, file.1@)));
        i += 1;
    }
    let ghost all = snapshot(file_models(shipped@), file_models(user@));
    assert(file_models(shipped@).take(i as int) =~= all.take(i as int));
    let mut j: usize = 0;
    while j < user.len()
        invariant
            j <= user@.len(),
            all == snapshot(file_models(shipped@), file_models(user@)),
            file_models(files@) == all.take(shipped@.len() + j),
        decreases user@.len() - j,
    {
        let file: &(String, String) = &user[j];
        let ghost before = file_models(files@);
        let name = concat("user-", file.0.as_str());
        let ghost shown = name@;
        files.push((name, file.1.as_str().to_owned()));
        assert(file_models(files@) =~= before.push((shown, file.1@)));
        assert(all[shipped@.len() + j] == ("user-"@ + file.0@, file.1@));
        assert(all.take(shipped@.len() + j + 1) =~= before.push((shown, file.1@)));
        j += 1;
    }
    assert(all.take(shipped@.len() + j) =~= all);
    files
}

/// No user file takes the place of a shipped one in a snapshot, so long as no
/// shipped file bears the users' prefix; user files keep apart too.
pub proof fn snapshots_hold_every_file(
    shipped: Seq<(Seq<char>, Seq<char>)>,
    user: Seq<(Seq<char>, Seq<char>)>,
    i: int,
    j: int,
)
    requires
        0 <= i < j < shipped.len() + user.len(),
        forall|k: int|
            0 <= k < shipped.len() ==> !split::starts_with((#[trigger] shipped[k]).0, "user-"@),
        forall|a: int, b: int|
            0 <= a < b < shipped.len() ==> (#[trigger] shipped[a]).0 != (#[trigger] shipped[b]).0,
        forall|a: int, b: int|
            0 <= a < b < user.len() ==> (#[trigger] user[a]).0 != (#[trigger] user[b]).0,
    ensures
        snapshot(shipped, user)[i].0 != snapshot(shipped, user)[j].0,
{
    let files = snapshot(shipped, user);
    let n = shipped.len();
    if j >= n {
        let right = user[j - n].0;
        assert(files[j].0 == "user-"@ + right);
        if i >= n {
            let left = user[i - n].0;
            assert(files[i].0 == "user-"@ + left);
            if "user-"@ + left == "user-"@ + right {
                let skip = "user-"@.len();
                assert(("user-"@ + left).subrange(skip as int, (skip + left.len()) as int)
                    =~= left);
                assert(("user-"@ + right).subrange(skip as int, (skip + right.len()) as int)
                    =~= right);
                assert(left == right);
            }
        } else if files[i].0 == files[j].0 {
            assert(("user-"@ + right).subrange(0, "user-"@.len() as int) =~= "user-"@);
            assert(split::starts_with(shipped[i].0, "user-"@));
        }
    }
}

// ------------------------------------------------------------- streaming

/// One event a rule matched, with the evidence.
#[derive(Debug)]
pub struct Hit {
    pub event_id: u64,
    /// Variable name to the value that satisfied it.
    pub matched_fields: TextMap<String>,
}

/// A hit and the rule that made it.
pub ghost struct HitModel {
    pub rule_id: Seq<char>,
    pub event_id: u64,
    pub fields: Map<Seq<char>, Seq<char>>,
}

pub open spec fn hit_model(rule_id: Seq<char>, hit: Hit) -> HitModel {
    HitModel { rule_id, event_id: hit.event_id, fields: rule::texts_of(hit.matched_fields@) }
}

pub open spec fn hit_models(hits: Seq<(String, Hit)>) -> Seq<HitModel> {
    Seq::new(hits.len(), |i: int| hit_model(hits[i].0@, hits[i].1))
}

/// The hit that a matching rule makes of an event.
pub open spec fn hit_of(rule: rule::RuleModel, event_id: u64, event: NormalizedEvent) -> HitModel {
    HitModel {
        rule_id: rule.id,
        event_id,
        fields: eval::evidence_of(rule.fields, event, rule.fields.len()),
    }
}

/// A rule runs on an event: `None` stands for any log type.
pub open spec fn wanted(rule: rule::RuleModel, log_type: Option<Seq<char>>) -> bool {
    match log_type {
        Some(t) => rule.runs_on(t),
        None => true,
    }
}

/// The rule is run on the event and matches it.
pub open spec fn strikes(
    rule: rule::RuleModel,
    log_type: Option<Seq<char>>,
    event: NormalizedEvent,
) -> bool {
    wanted(rule, log_type) && eval::matches(rule, event)
}

/// The hits of the first `n` rules on one event, in rule order.
pub open spec fn hits_on(
    rules: Seq<rule::RuleModel>,
    n: nat,
    log_type: Option<Seq<char>>,
    event_id: u64,
    event: NormalizedEvent,
) -> Seq<HitModel>
    decreases n,
{
    if n == 0 || n > rules.len() {
        Seq::empty()
    } else {
        let before = hits_on(rules, (n - 1) as nat, log_type, event_id, event);
        if strikes(rules[n - 1], log_type, event) {
            before.push(hit_of(rules[n - 1], event_id, event))
        } else {
            before
        }
    }
}

/// A rule's line in the summary of a run.
#[derive(Debug)]
pub struct RuleSummary {
    pub rule_id: String,
    pub severity: String,
    pub description: String,
    pub match_count: u64,
}

/// What a run over events came to.
#[derive(Debug)]
pub struct MatchSummary {
    pub total: u64,
    /// Events no rule matched.
    pub unmatched: u64,
    pub rules: Vec<RuleSummary>,
}

/// Runs a rule set over a stream of events. Neither events nor hits
/// accumulate: hits leave in batches of about `batch`.
pub struct MatchStreamer<'a> {
    set: &'a RuleSet,
    batch: usize,
    pending: Vec<(String, Hit)>,
    counts: Vec<u64>,
    total: u64,
    unmatched: u64,
}

pub ghost struct StreamModel {
    pub rules: Seq<rule::RuleModel>,
    pub batch: nat,
    pub pending: Seq<HitModel>,
    /// Hits so far, per rule.
    pub counts: Seq<nat>,
    pub total: nat,
    pub unmatched: nat,
}

impl<'a> View for MatchStreamer<'a> {
    type V = StreamModel;

    closed spec fn view(&self) -> StreamModel {
        StreamModel {
            rules: self.set@.rules,
            batch: self.batch as nat,
            pending: hit_models(self.pending@),
            counts: Seq::new(self.counts@.len(), |i: int| self.counts@[i] as nat),
            total: self.total as nat,
            unmatched: self.unmatched as nat,
        }
    }
}

impl StreamModel {
    /// Every event is accounted for, and no rule has more hits than there
    /// were events.
    pub open spec fn sound(self) -> bool {
        &&& self.unmatched <= self.total
        &&& self.counts.len() == self.rules.len()
        &&& forall|i: int| 0 <= i < self.counts.len() ==> #[trigger] self.counts[i] <= self.total
    }
}

/// The stream after one event, and the batch that left with it.
pub open spec fn streamed(
    s: StreamModel,
    log_type: Option<Seq<char>>,
    event_id: u64,
    event: NormalizedEvent,
) -> (StreamModel, Option<Seq<HitModel>>) {
    let hits = hits_on(s.rules, s.rules.len(), log_type, event_id, event);
    let pending = s.pending + hits;
    let full = pending.len() >= s.batch;
    (
        StreamModel {
            pending: if full {
                Seq::empty()
            } else {
                pending
            },
            counts: Seq::new(
                s.counts.len(),
                |i: int|
                    s.counts[i] + if strikes(s.rules[i], log_type, event) {
                        1nat
                    } else {
                        0nat
                    },
            ),
            total: s.total + 1,
            unmatched: s.unmatched + if hits.len() == 0 {
                1nat
            } else {
                0nat
            },
            ..s
        },
        if full {
            Some(pending)
        } else {
            None
        },
    )
}

pub open spec fn batch_model(batch: Option<Vec<(String, Hit)>>) -> Option<Seq<HitModel>> {
    match batch {
        Some(hits) => Some(hit_models(hits@)),
        None => None,
    }
}

/// The summary lines say what the stream counted.
pub open spec fn summarized(lines: Seq<RuleSummary>, s: StreamModel) -> bool {
    &&& lines.len() == s.rules.len()
    &&& forall|i: int|
        0 <= i < lines.len() ==> {
            &&& (#[trigger] lines[i]).rule_id@ == s.rules[i].id
            &&& lines[i].severity@ == s.rules[i].meta_text("severity"@).unwrap_or("unknown"@)
            &&& lines[i].description@ == s.rules[i].meta_text("description"@).unwrap_or(""@)
            &&& lines[i].match_count == s.counts[i]
        }
}

impl<'a> MatchStreamer<'a> {
    pub fn new(set: &'a RuleSet, batch: usize) -> (s: MatchStreamer<'a>)
        ensures
            s@.rules == set@.rules,
            s@.batch == batch,
            s@.pending.len() == 0,
            s@.counts == Seq::new(set@.rules.len(), |i: int| 0nat),
            s@.total == 0,
            s@.unmatched == 0,
            s@.sound(),
    {
        let mut counts: Vec<u64> = Vec::new();
        let rules = set.rules();
        let mut i: usize = 0;
        while i < rules.len()
            invariant
                i <= rules@.len(),
                counts@.len() == i,
                forall|j: int| 0 <= j < i ==> #[trigger] counts@[j] == 0,
            decreases rules@.len() - i,
        {
            counts.push(0);
            i += 1;
        }
        let s = MatchStreamer { set, batch, pending: Vec::new(), counts, total: 0, unmatched: 0 };
        assert(s@.counts =~= Seq::new(set@.rules.len(), |i: int| 0nat));
        assert forall|j: int| 0 <= j < s@.counts.len() implies #[trigger] s@.counts[j]
            <= s@.total by {}
        s
    }

    fn feed(&mut self, event_id: u64, log_type: Option<&str>, event: &NormalizedEvent) -> (r:
        Option<Vec<(String, Hit)>>)
        requires
            old(self)@.sound(),
            old(self)@.total < u64::MAX,
        ensures
            (final(self)@, batch_model(r)) == streamed(
                old(self)@,
                text::opt_str(log_type),
                event_id,
                *event,
            ),
            final(self)@.sound(),
    {
        let ghost before = self@;
        let ghost kind = text::opt_str(log_type);
        let view = EventView::new(event);
        let set = self.set;
        let rules = set.rules();
        let ghost models = before.rules;
        let mut found: usize = 0;
        let mut i: usize = 0;
        assert(before.pending + Seq::<HitModel>::empty() =~= before.pending);
        while i < rules.len()
            invariant
                i <= rules@.len(),
                view.event() == *event,
                kind == text::opt_str(log_type),
                models == rule::rule_models(rules@),
                models == before.rules,
                before == old(self)@,
                before.sound(),
                before.total < u64::MAX,
                self@.rules == before.rules,
                self.set == set,
                set@.rules == models,
                self@.batch == before.batch,
                self@.total == before.total,
                self@.unmatched == before.unmatched,
                self.counts@.len() == models.len(),
                found == hits_on(models, i as nat, kind, event_id, *event).len(),
                found <= i,
                self@.pending == before.pending + hits_on(
                    models,
                    i as nat,
                    kind,
                    event_id,
                    *event,
                ),
                forall|j: int|
                    0 <= j < models.len() ==> #[trigger] self.counts@[j] == before.counts[j] + if j
                        < i && strikes(models[j], kind, *event) {
                        1nat
                    } else {
                        0nat
                    },
            decreases rules@.len() - i,
        {
            let rule: &Rule = &rules[i];
            assert(models[i as int] == rule@);
            let runs: bool = match log_type {
                Some(t) => rule.applies_to(t),
                None => true,
            };
            if runs {
                match evidence(rule, &view) {
                    Some(matched_fields) => {
                        let ghost pending = self@.pending;
                        let hit = Hit { event_id, matched_fields };
                        let ghost model = hit_model(rule.id@, hit);
                        self.pending.push((rule.id.clone(), hit));
                        assert(self@.pending =~= pending.push(model));
                        assert(model == hit_of(models[i as int], event_id, *event));
                        let count: u64 = self.counts[i];
                        assert(count == before.counts[i as int]);
                        self.counts.set(i, count + 1);
                        found += 1;
                        proof {
                            let h = hits_on(models, i as nat, kind, event_id, *event);
                            assert(before.pending + h.push(model) =~= (before.pending + h).push(
                                model,
                            ));
                        }
                    },
                    None => {},
                }
            }
            i += 1;
        }
        self.total = self.total + 1;
        if found == 0 {
            self.unmatched = self.unmatched + 1;
        }
        proof {
            let after = streamed(before, kind, event_id, *event).0;
            assert(self@.counts =~= after.counts);
            assert forall|j: int| 0 <= j < self@.counts.len() implies #[trigger] self@.counts[j]
                <= self@.total by {
                assert(before.counts[j] <= before.total);
                assert(self@.counts[j] == self.counts@[j]);
            }
        }
        if self.pending.len() >= self.batch {
            let mut batch: Vec<(String, Hit)> = Vec::new();
            let ghost pending = self@.pending;
            core::mem::swap(&mut batch, &mut self.pending);
            assert(self@.pending =~= Seq::empty());
            Some(batch)
        } else {
            None
        }
    }

    /// Runs every rule on one event. A batch that is full leaves.
    pub fn push(&mut self, event_id: u64, event: &NormalizedEvent) -> (r: Option<
        Vec<(String, Hit)>,
    >)
        requires
            old(self)@.sound(),
            old(self)@.total < u64::MAX,
        ensures
            (final(self)@, batch_model(r)) == streamed(old(self)@, None, event_id, *event),
            final(self)@.sound(),
    {
        self.feed(event_id, None, event)
    }

    /// Runs the rules for `log_type` on one event. A batch that is full leaves.
    pub fn push_for_log_type(&mut self, event_id: u64, log_type: &str, event: &NormalizedEvent) -> (r:
        Option<Vec<(String, Hit)>>)
        requires
            old(self)@.sound(),
            old(self)@.total < u64::MAX,
        ensures
            (final(self)@, batch_model(r)) == streamed(
                old(self)@,
                Some(log_type@),
                event_id,
                *event,
            ),
            final(self)@.sound(),
    {
        self.feed(event_id, Some(log_type), event)
    }

    /// The hits still held, and the summary of the run.
    pub fn finish(self) -> (r: (Vec<(String, Hit)>, MatchSummary))
        requires
            self@.sound(),
        ensures
            hit_models(r.0@) == self@.pending,
            r.1.total == self@.total,
            r.1.unmatched == self@.unmatched,
            summarized(r.1.rules@, self@),
    {
        let rules = self.set.rules();
        let mut lines: Vec<RuleSummary> = Vec::new();
        let mut i: usize = 0;
        while i < rules.len()
            invariant
                i <= rules@.len(),
                self@.sound(),
                self.set@.rules == rule::rule_models(rules@),
                self@.rules == rule::rule_models(rules@),
                lines@.len() == i,
                forall|j: int|
                    0 <= j < i ==> {
                        &&& (#[trigger] lines@[j]).rule_id@ == self@.rules[j].id
                        &&& lines@[j].severity@ == self@.rules[j].meta_text(
                            "severity"@,
                        ).unwrap_or("unknown"@)
                        &&& lines@[j].description@ == self@.rules[j].meta_text(
                            "description"@,
                        ).unwrap_or(""@)
                        &&& lines@[j].match_count == self@.counts[j]
                    },
            decreases rules@.len() - i,
        {
            let rule: &Rule = &rules[i];
            assert(self@.rules[i as int] == rule@);
            assert(self@.counts.len() == self.counts@.len());
            lines.push(
                RuleSummary {
                    rule_id: rule.id.clone(),
                    severity: rule.severity().to_owned(),
                    description: rule.description().to_owned(),
                    match_count: self.counts[i],
                },
            );
            i += 1;
        }
        (
            self.pending,
            MatchSummary { total: self.total, unmatched: self.unmatched, rules: lines },
        )
    }
}

// ------------------------------------------------------------- reporting

/// One rule's hits.
#[derive(Debug)]
pub struct RuleMatchGroup {
    pub rule_id: String,
    pub severity: String,
    pub description: String,
    pub matches: Vec<Hit>,
}

/// All hits of a rule set on a list of events, grouped by rule.
#[derive(Debug)]
pub struct MatchReport {
    pub groups: Vec<RuleMatchGroup>,
    /// Events no rule matched.
    pub unmatched: u64,
    pub total: u64,
}

/// The hits of one rule on the first `n` events.
pub open spec fn rule_hits(
    rule: rule::RuleModel,
    events: Seq<(u64, &NormalizedEvent)>,
    n: nat,
) -> Seq<HitModel>
    decreases n,
{
    if n == 0 || n > events.len() {
        Seq::empty()
    } else {
        let before = rule_hits(rule, events, (n - 1) as nat);
        let (event_id, event) = events[n - 1];
        if eval::matches(rule, *event) {
            before.push(hit_of(rule, event_id, *event))
        } else {
            before
        }
    }
}

pub open spec fn any_matches(rules: Seq<rule::RuleModel>, event: NormalizedEvent) -> bool {
    exists|i: int| 0 <= i < rules.len() && eval::matches(#[trigger] rules[i], event)
}

/// Those of the first `n` events that a rule matches, or that none does.
pub open spec fn events_matched(
    rules: Seq<rule::RuleModel>,
    events: Seq<(u64, &NormalizedEvent)>,
    n: nat,
    matched: bool,
) -> nat
    decreases n,
{
    if n == 0 || n > events.len() {
        0
    } else {
        events_matched(rules, events, (n - 1) as nat, matched) + if any_matches(
            rules,
            *events[n - 1].1,
        ) == matched {
            1nat
        } else {
            0nat
        }
    }
}

pub open spec fn group_hits(rule_id: Seq<char>, hits: Seq<Hit>) -> Seq<HitModel> {
    Seq::new(hits.len(), |i: int| hit_model(rule_id, hits[i]))
}

/// A group says what its rule did on the first `n` events.
pub open spec fn grouped(
    group: RuleMatchGroup,
    rule: rule::RuleModel,
    events: Seq<(u64, &NormalizedEvent)>,
    n: nat,
) -> bool {
    &&& group.rule_id@ == rule.id
    &&& group.severity@ == rule.meta_text("severity"@).unwrap_or("unknown"@)
    &&& group.description@ == rule.meta_text("description"@).unwrap_or(""@)
    &&& group_hits(rule.id, group.matches@) == rule_hits(rule, events, n)
}

/// Runs a rule set over events and groups the hits by rule. Every rule is
/// listed: one that matched nothing is coverage information.
pub fn match_events(set: &RuleSet, events: &[(u64, &NormalizedEvent)]) -> (report: MatchReport)
    ensures
        report.total == events@.len(),
        report.unmatched == events_matched(set@.rules, events@, events@.len(), false),
        report.groups@.len() == set@.rules.len(),
        forall|i: int|
            0 <= i < set@.rules.len() ==> grouped(
                #[trigger] report.groups@[i],
                set@.rules[i],
                events@,
                events@.len(),
            ),
{
    let rules = set.rules();
    let ghost models = set@.rules;
    let mut groups: Vec<RuleMatchGroup> = Vec::new();
    let mut i: usize = 0;
    while i < rules.len()
        invariant
            i <= rules@.len(),
            models == rule::rule_models(rules@),
            groups@.len() == i,
            forall|j: int| 0 <= j < i ==> grouped(#[trigger] groups@[j], models[j], events@, 0),
        decreases rules@.len() - i,
    {
        let rule: &Rule = &rules[i];
        assert(models[i as int] == rule@);
        let group = RuleMatchGroup {
            rule_id: rule.id.clone(),
            severity: rule.severity().to_owned(),
            description: rule.description().to_owned(),
            matches: Vec::new(),
        };
        assert(group_hits(rule.id@, group.matches@) =~= Seq::empty());
        groups.push(group);
        i += 1;
    }
    let mut unmatched: u64 = 0;
    let mut n: usize = 0;
    while n < events.len()
        invariant
            n <= events@.len(),
            models == rule::rule_models(rules@),
            groups@.len() == models.len(),
            unmatched <= n,
            unmatched == events_matched(models, events@, n as nat, false),
            forall|j: int|
                0 <= j < models.len() ==> grouped(
                    #[trigger] groups@[j],
                    models[j],
                    events@,
                    n as nat,
                ),
        decreases events@.len() - n,
    {
        let (event_id, event) = events[n];
        let view = EventView::new(event);
        let mut hit_any: bool = false;
        let mut k: usize = 0;
        while k < rules.len()
            invariant
                k <= rules@.len(),
                n < events@.len(),
                events@[n as int] == (event_id, event),
                view.event() == *event,
                models == rule::rule_models(rules@),
                groups@.len() == models.len(),
                hit_any == exists|j: int|
                    0 <= j < k && eval::matches(#[trigger] models[j], *event),
                forall|j: int|
                    0 <= j < models.len() ==> grouped(
                        #[trigger] groups@[j],
                        models[j],
                        events@,
                        if j < k {
                            (n + 1) as nat
                        } else {
                            n as nat
                        },
                    ),
            decreases rules@.len() - k,
        {
            let rule: &Rule = &rules[k];
            assert(models[k as int] == rule@);
            assert(grouped(groups@[k as int], models[k as int], events@, n as nat));
            match evidence(rule, &view) {
                Some(matched_fields) => {
                    hit_any = true;
                    let hit = Hit { event_id, matched_fields };
                    let ghost model = hit_model(rule.id@, hit);
                    let mut group = groups.remove(k);
                    let ghost before = group_hits(rule.id@, group.matches@);
                    group.matches.push(hit);
                    assert(group_hits(rule.id@, group.matches@) =~= before.push(model));
                    groups.insert(k, group);
                },
                None => {},
            }
            k += 1;
        }
        if !hit_any {
            unmatched += 1;
        }
        n += 1;
    }
    MatchReport { groups, unmatched, total: events.len() as u64 }
}

// ----------------------------------------------------------------- laws

/// Every event is accounted for: matched and unmatched events make the total.
pub proof fn matched_and_unmatched_make_the_total(
    rules: Seq<rule::RuleModel>,
    events: Seq<(u64, &NormalizedEvent)>,
    n: nat,
)
    requires
        n <= events.len(),
    ensures
        events_matched(rules, events, n, true) + events_matched(rules, events, n, false) == n,
    decreases n,
{
    if n > 0 {
        matched_and_unmatched_make_the_total(rules, events, (n - 1) as nat);
    }
}

/// A file's rules all end up in the set, and a rule whose id the file does not
/// name stays as it was, where it was: an id is replaced, never duplicated.
pub proof fn a_file_replaces_only_its_own_ids(
    set: SetModel,
    path: Seq<char>,
    src: Seq<char>,
    by_user: bool,
)
    requires
        distinct_ids(set.rules),
    ensures
        ({
            let after = with_file(set, path, src, by_user).rules;
            &&& distinct_ids(after)
            &&& parser::parsed(src) is Err ==> after == set.rules
            &&& parser::parsed(src) matches Ok(new) ==> {
                &&& forall|k: int| 0 <= k < new.len() ==> after.contains(#[trigger] new[k])
                &&& set.rules.len() <= after.len()
                &&& forall|i: int|
                    0 <= i < set.rules.len() && !parser::has_id(new, (#[trigger] set.rules[i]).id)
                        ==> after[i] == set.rules[i]
            }
        }),
{
    if let Ok(new) = parser::parsed(src) {
        parser::rule_ids_are_distinct(src);
        lemma_put_all(set.rules, new, new.len());
        lemma_put_all_distinct(set.rules, new, new.len());
        let after = put_all(set.rules, new, new.len());
        assert forall|k: int| 0 <= k < new.len() implies after.contains(#[trigger] new[k]) by {}
    }
}

proof fn lemma_put_all(rules: Seq<rule::RuleModel>, new: Seq<rule::RuleModel>, n: nat)
    requires
        distinct_ids(rules),
        distinct_ids(new),
        n <= new.len(),
    ensures
        rules.len() <= put_all(rules, new, n).len(),
        forall|k: int|
            0 <= k < n ==> put_all(rules, new, n).contains(#[trigger] new[k]),
        forall|i: int|
            0 <= i < rules.len() && !parser::has_id(new, (#[trigger] rules[i]).id) ==> put_all(
                rules,
                new,
                n,
            )[i] == rules[i],
    decreases n,
{
    if n > 0 {
        let before = put_all(rules, new, (n - 1) as nat);
        let rule = new[n - 1];
        lemma_put_all(rules, new, (n - 1) as nat);
        lemma_put_all_distinct(rules, new, (n - 1) as nat);
        lemma_index_from(before, rule.id, 0);
        let after = put(before, rule);
        assert forall|k: int| 0 <= k < n implies after.contains(#[trigger] new[k]) by {
            match index_from(before, rule.id, 0) {
                Some(p) => {
                    if k == n - 1 {
                        assert(after[p] == rule);
                    } else {
                        let q = choose|q: int| 0 <= q < before.len() && before[q] == new[k];
                        assert(new[k].id != rule.id);
                        assert(after[q] == new[k]);
                    }
                },
                None => {
                    if k == n - 1 {
                        assert(after[before.len() as int] == rule);
                    } else {
                        let q = choose|q: int| 0 <= q < before.len() && before[q] == new[k];
                        assert(after[q] == new[k]);
                    }
                },
            }
        }
        assert forall|i: int|
            0 <= i < rules.len() && !parser::has_id(new, (#[trigger] rules[i]).id) implies after[i]
            == rules[i] by {
            assert(before[i] == rules[i]);
            if index_from(before, rule.id, 0) == Some(i) {
                assert(new[n - 1].id == rules[i].id);
            }
        }
    }
}

} // verus!
