use vstd::prelude::*;

use crate::test_case::TestCase;
use crate::test_id::{
    compare_text, lemma_text_lt_total, lemma_text_lt_transitive, text_lt,
    text_lt_irreflexive_or_differs, TestId,
};
use crate::utils::file;
use crate::utils::string::opt_text;

verus! {

// DOCUMENT STRUCTURE

/// A field value: given in place, given as `{ value = .. }`, read from a
/// file next to the document, or read from an environment variable.
#[derive(Debug)]
pub enum ConfigValue<T> {
    Literal(T),
    WrappedLiteral { value: T },
    ReadFromFile { file: String },
    FetchFromEnv { env: String },
}

/// One test document, or one named sub-test within it.
#[derive(Debug)]
pub struct TomlConfig {
    pub description: Option<ConfigValue<String>>,
    pub program: Option<ConfigValue<String>>,
    pub program_arguments: Option<Vec<ConfigValue<String>>>,
    pub stdin: Option<ConfigValue<String>>,
    pub expected_stdout: Option<ConfigValue<String>>,
    pub expected_stderr: Option<ConfigValue<String>>,
    pub expected_exit_code: Option<ConfigValue<i32>>,
    pub tests: Option<Vec<(String, TomlConfig)>>,
}

// REQUIREMENTS

/// Something outside the document that a value is read from.
#[derive(PartialEq, Eq, PartialOrd, Ord, Debug)]
pub enum Requirement {
    ExternalFile(String),
    EnvVar(String),
}

pub enum RequirementView {
    ExternalFile(Seq<char>),
    EnvVar(Seq<char>),
}

impl View for Requirement {
    type V = RequirementView;

    open spec fn view(&self) -> RequirementView {
        match self {
            Requirement::ExternalFile(path) => RequirementView::ExternalFile(path@),
            Requirement::EnvVar(name) => RequirementView::EnvVar(name@),
        }
    }
}

pub open spec fn requirement_views(v: Seq<Requirement>) -> Seq<RequirementView> {
    v.map_values(|r: Requirement| r@)
}

/// The requirements that one value brings: none for a value given in place.
pub open spec fn value_requirements<T>(v: ConfigValue<T>) -> Set<RequirementView> {
    match v {
        ConfigValue::ReadFromFile { file } => set![RequirementView::ExternalFile(file@)],
        ConfigValue::FetchFromEnv { env } => set![RequirementView::EnvVar(env@)],
        _ => Set::empty(),
    }
}

pub open spec fn field_requirements<T>(v: Option<ConfigValue<T>>) -> Set<RequirementView> {
    match v {
        Some(c) => value_requirements(c),
        None => Set::empty(),
    }
}

pub open spec fn values_requirements(s: Seq<ConfigValue<String>>) -> Set<RequirementView>
    decreases s.len(),
{
    if s.len() == 0 {
        Set::empty()
    } else {
        values_requirements(s.drop_last()) + value_requirements(s.last())
    }
}

pub open spec fn arguments_requirements(v: Option<Vec<ConfigValue<String>>>) -> Set<
    RequirementView,
> {
    match v {
        Some(args) => values_requirements(args@),
        None => Set::empty(),
    }
}

/// Every requirement of the fields of one config; its sub-tests are not looked at.
pub open spec fn leaf_requirements(c: TomlConfig) -> Set<RequirementView> {
    field_requirements(c.description) + field_requirements(c.program) + field_requirements(c.stdin)
        + field_requirements(c.expected_stdout) + field_requirements(c.expected_stderr)
        + field_requirements(c.expected_exit_code) + arguments_requirements(c.program_arguments)
}

/// Every requirement of a list of configs.
pub open spec fn leaves_requirements(s: Seq<TomlConfig>) -> Set<RequirementView>
    decreases s.len(),
{
    if s.len() == 0 {
        Set::empty()
    } else {
        leaves_requirements(s.drop_last()) + leaf_requirements(s.last())
    }
}

/// Order of keys: by rank first, then by text.
pub open spec fn key_lt(a: (int, Seq<char>), b: (int, Seq<char>)) -> bool {
    a.0 < b.0 || (a.0 == b.0 && text_lt(a.1, b.1))
}

pub open spec fn sorted_by_key(s: Seq<(int, Seq<char>)>) -> bool {
    forall|i: int, j: int| 0 <= i < j < s.len() ==> key_lt(#[trigger] s[i], #[trigger] s[j])
}

proof fn lemma_key_order(a: (int, Seq<char>), b: (int, Seq<char>), c: (int, Seq<char>))
    ensures
        !key_lt(a, a),
        key_lt(a, b) && key_lt(b, c) ==> key_lt(a, c),
        a != b ==> key_lt(a, b) || key_lt(b, a),
{
    text_lt_irreflexive_or_differs(a.1, a.1);
    if key_lt(a, b) && key_lt(b, c) && a.0 == b.0 && b.0 == c.0 {
        lemma_text_lt_transitive(a.1, b.1, c.1);
    }
    if a != b && a.0 == b.0 {
        assert(a.1 != b.1);
        lemma_text_lt_total(a.1, b.1);
    }
}

proof fn lemma_sorted_insert(keys: Seq<(int, Seq<char>)>, x: (int, Seq<char>), k: int)
    requires
        sorted_by_key(keys),
        0 <= k <= keys.len(),
        forall|j: int| 0 <= j < k ==> !key_lt(x, #[trigger] keys[j]),
        k < keys.len() ==> key_lt(x, keys[k]),
        forall|j: int| 0 <= j < keys.len() ==> #[trigger] keys[j] != x,
    ensures
        sorted_by_key(keys.insert(k, x)),
{
    let r = keys.insert(k, x);
    assert forall|i: int, j: int| 0 <= i < j < r.len() implies key_lt(#[trigger] r[i], #[trigger] r[j]) by {
        if j < k {
            assert(r[i] == keys[i] && r[j] == keys[j]);
        } else if j == k {
            assert(r[i] == keys[i]);
            lemma_key_order(keys[i], x, x);
        } else if i == k {
            assert(r[j] == keys[j - 1]);
            if j - 1 > k {
                lemma_key_order(x, keys[k], keys[j - 1]);
            }
        } else if i < k {
            assert(r[i] == keys[i] && r[j] == keys[j - 1]);
        } else {
            assert(r[i] == keys[i - 1] && r[j] == keys[j - 1]);
        }
    }
}

proof fn lemma_insert_distinct<A>(s: Seq<A>, k: int, x: A)
    requires
        s.no_duplicates(),
        !s.contains(x),
        0 <= k <= s.len(),
    ensures
        s.insert(k, x).no_duplicates(),
        s.insert(k, x).to_set() == s.to_set().insert(x),
{
    let r = s.insert(k, x);
    assert forall|i: int, j: int| 0 <= i < r.len() && 0 <= j < r.len() && i != j implies r[i] != r[j] by {
        let a = if i < k { i } else { i - 1 };
        let b = if j < k { j } else { j - 1 };
        if i != k && j != k {
            assert(r[i] == s[a] && r[j] == s[b]);
        } else if i == k {
            assert(r[j] == s[b]);
        } else {
            assert(r[i] == s[a]);
        }
    }
    assert forall|y: A| #[trigger] r.contains(y) implies s.to_set().insert(x).contains(y) by {
        let i = choose|i: int| 0 <= i < r.len() && r[i] == y;
        if i < k {
            assert(s[i] == y);
        } else if i > k {
            assert(s[i - 1] == y);
        }
    }
    assert forall|y: A| #[trigger] s.to_set().insert(x).contains(y) implies r.contains(y) by {
        if y == x {
            assert(r[k] == y);
        } else {
            let i = choose|i: int| 0 <= i < s.len() && s[i] == y;
            if i < k {
                assert(r[i] == y);
            } else {
                assert(r[i + 1] == y);
            }
        }
    }
    assert(r.to_set() =~= s.to_set().insert(x));
}

fn key_before(a: (u8, &str), b: (u8, &str)) -> (r: bool)
    ensures
        r == key_lt((a.0 as int, a.1@), (b.0 as int, b.1@)),
{
    if a.0 != b.0 {
        a.0 < b.0
    } else {
        compare_text(a.1, b.1) < 0
    }
}

/// Items that sort by a key of a rank and a text.
pub trait SortKey {
    spec fn sort_key(&self) -> (int, Seq<char>);

    fn exec_sort_key(&self) -> (r: (u8, &str))
        ensures
            (r.0 as int, r.1@) == self.sort_key(),
    ;
}

pub open spec fn sort_keys<T: SortKey>(v: Seq<T>) -> Seq<(int, Seq<char>)> {
    v.map_values(|t: T| t.sort_key())
}

/// Adds `x` at its place in a list sorted by key, unless an item with the
/// same key is there already; returns whether it went in.
fn insert_sorted<T: SortKey>(v: &mut Vec<T>, x: T) -> (inserted: bool)
    requires
        sorted_by_key(sort_keys(old(v)@)),
    ensures
        sorted_by_key(sort_keys(final(v)@)),
        !inserted ==> final(v)@ == old(v)@ && sort_keys(old(v)@).contains(x.sort_key()),
        inserted ==> !sort_keys(old(v)@).contains(x.sort_key()) && exists|k: int|
            0 <= k <= old(v)@.len() && final(v)@ == old(v)@.insert(k, x),
{
    let ghost keys = sort_keys(v@);
    let key = x.exec_sort_key();
    let mut i: usize = 0;
    while i < v.len()
        invariant
            keys == sort_keys(v@),
            sorted_by_key(keys),
            (key.0 as int, key.1@) == x.sort_key(),
            i <= v@.len(),
            forall|j: int| 0 <= j < i ==> (#[trigger] keys[j]) != x.sort_key(),
        decreases v@.len() - i,
    {
        let other = v[i].exec_sort_key();
        if other.0 == key.0 && compare_text(other.1, key.1) == 0 {
            assert(keys[i as int] == x.sort_key());
            return false;
        }
        i = i + 1;
    }
    let mut k: usize = 0;
    let mut found = false;
    while !found && k < v.len()
        invariant
            keys == sort_keys(v@),
            (key.0 as int, key.1@) == x.sort_key(),
            k <= v@.len(),
            forall|j: int| 0 <= j < k ==> !key_lt(x.sort_key(), #[trigger] keys[j]),
            found ==> k < v@.len() && key_lt(x.sort_key(), keys[k as int]),
        decreases v@.len() - k + (if found { 0int } else { 1int }),
    {
        if key_before(key, v[k].exec_sort_key()) {
            found = true;
        } else {
            k = k + 1;
        }
    }
    proof {
        lemma_sorted_insert(keys, x.sort_key(), k as int);
    }
    let ghost before = v@;
    v.insert(k, x);
    assert(sort_keys(v@) =~= keys.insert(k as int, x.sort_key()));
    assert(v@ == before.insert(k as int, x));
    true
}

/// Requirements sort files before variables, each by name.
pub open spec fn requirement_key(r: RequirementView) -> (int, Seq<char>) {
    match r {
        RequirementView::ExternalFile(p) => (0, p),
        RequirementView::EnvVar(n) => (1, n),
    }
}

pub open spec fn requirement_keys(v: Seq<Requirement>) -> Seq<(int, Seq<char>)> {
    v.map_values(|r: Requirement| requirement_key(r@))
}

/// A list of requirements kept as a set: no repeats, in sorted order.
pub open spec fn requirement_set_ok(v: Seq<Requirement>) -> bool {
    requirement_views(v).no_duplicates() && sorted_by_key(requirement_keys(v))
}

impl SortKey for Requirement {
    open spec fn sort_key(&self) -> (int, Seq<char>) {
        requirement_key(self@)
    }

    fn exec_sort_key(&self) -> (r: (u8, &str)) {
        match self {
            Requirement::ExternalFile(path) => (0, path.as_str()),
            Requirement::EnvVar(name) => (1, name.as_str()),
        }
    }
}

/// Adds `req` to a sorted list without repeats, unless it is there already.
fn insert_requirement(requirements: &mut Vec<Requirement>, req: Requirement)
    requires
        requirement_set_ok(old(requirements)@),
    ensures
        requirement_set_ok(final(requirements)@),
        requirement_views(final(requirements)@).to_set() == requirement_views(
            old(requirements)@,
        ).to_set().insert(req@),
{
    let ghost before = requirements@;
    let ghost s = requirement_views(before);
    let ghost x = req@;
    assert(sort_keys(before) =~= requirement_keys(before));
    let ghost r0 = req;
    let inserted = insert_sorted(requirements, req);
    assert(sort_keys(requirements@) =~= requirement_keys(requirements@));
    proof {
        if !inserted {
            let j = choose|j: int| 0 <= j < before.len() && sort_keys(before)[j] == r0.sort_key();
            assert(s[j] == x);
            assert(s.to_set() =~= s.to_set().insert(x)) by {
                assert(s.contains(x));
            }
        } else {
            let k = choose|k: int| 0 <= k <= before.len() && requirements@ == before.insert(k, r0);
            if s.contains(x) {
                let j = choose|j: int| 0 <= j < s.len() && s[j] == x;
                assert(sort_keys(before)[j] == r0.sort_key());
            }
            lemma_insert_distinct(s, k, x);
            assert(requirement_views(requirements@) =~= s.insert(k, x));
        }
    }
}

fn clone_requirement(req: &Requirement) -> (r: Requirement)
    ensures
        r@ == req@,
{
    match req {
        Requirement::ExternalFile(path) => Requirement::ExternalFile(path.clone()),
        Requirement::EnvVar(name) => Requirement::EnvVar(name.clone()),
    }
}

/// The requirement that a value brings, if any.
fn get_requirement<T>(config_value: &ConfigValue<T>) -> (r: Option<Requirement>)
    ensures
        r is None ==> value_requirements(*config_value) == Set::<RequirementView>::empty(),
        r is Some ==> value_requirements(*config_value) == set![r->Some_0@],
{
    match config_value {
        ConfigValue::Literal(_) => None,
        ConfigValue::WrappedLiteral { value: _ } => None,
        ConfigValue::ReadFromFile { file: filename } => {
            Some(Requirement::ExternalFile(filename.clone()))
        },
        ConfigValue::FetchFromEnv { env: var_name } => Some(Requirement::EnvVar(var_name.clone())),
    }
}

fn add_requirement<T>(requirements: &mut Vec<Requirement>, value: &Option<ConfigValue<T>>)
    requires
        requirement_set_ok(old(requirements)@),
    ensures
        requirement_set_ok(final(requirements)@),
        requirement_views(final(requirements)@).to_set() == requirement_views(
            old(requirements)@,
        ).to_set() + field_requirements(*value),
{
    let ghost before = requirement_views(requirements@).to_set();
    match value {
        Some(v) => match get_requirement(v) {
            Some(req) => {
                insert_requirement(requirements, req);
                assert(before.insert(req@) =~= before + set![req@]);
            },
            None => {
                assert(before =~= before + Set::<RequirementView>::empty());
            },
        },
        None => {
            assert(before =~= before + Set::<RequirementView>::empty());
        },
    }
}

fn add_requirements_of(requirements: &mut Vec<Requirement>, config: &TomlConfig)
    requires
        requirement_set_ok(old(requirements)@),
    ensures
        requirement_set_ok(final(requirements)@),
        requirement_views(final(requirements)@).to_set() == requirement_views(
            old(requirements)@,
        ).to_set() + leaf_requirements(*config),
{
    let ghost before = requirement_views(requirements@).to_set();
    add_requirement(requirements, &config.description);
    add_requirement(requirements, &config.program);
    add_requirement(requirements, &config.stdin);
    add_requirement(requirements, &config.expected_stdout);
    add_requirement(requirements, &config.expected_stderr);
    add_requirement(requirements, &config.expected_exit_code);
    let ghost mid = requirement_views(requirements@).to_set();
    match &config.program_arguments {
        Some(arguments) => {
            let mut i: usize = 0;
            assert(arguments@.subrange(0, 0) =~= Seq::<ConfigValue<String>>::empty());
            assert(mid =~= mid + values_requirements(arguments@.subrange(0, 0)));
            while i < arguments.len()
                invariant
                    i <= arguments@.len(),
                    requirement_set_ok(requirements@),
                    requirement_views(requirements@).to_set() == mid + values_requirements(
                        arguments@.subrange(0, i as int),
                    ),
                decreases arguments@.len() - i,
            {
                let ghost cur = requirement_views(requirements@).to_set();
                assert(arguments@.subrange(0, i + 1).drop_last() =~= arguments@.subrange(
                    0,
                    i as int,
                ));
                match get_requirement(&arguments[i]) {
                    Some(req) => {
                        insert_requirement(requirements, req);
                        assert(cur.insert(req@) =~= cur + set![req@]);
                    },
                    None => {},
                }
                assert(requirement_views(requirements@).to_set() =~= mid + values_requirements(
                    arguments@.subrange(0, i + 1),
                ));
                i = i + 1;
            }
            assert(arguments@.subrange(0, i as int) =~= arguments@);
        },
        None => {},
    }
    assert(requirement_views(requirements@).to_set() =~= before + leaf_requirements(*config));
}

/// The requirements of one config's own fields, each once.
pub fn get_requirements_from_leaf_config(config: &TomlConfig) -> (r: Vec<Requirement>)
    ensures
        requirement_set_ok(r@),
        requirement_views(r@).to_set() == leaf_requirements(*config),
{
    let mut requirements: Vec<Requirement> = Vec::new();
    assert(requirement_views(requirements@) =~= Seq::<RequirementView>::empty());
    add_requirements_of(&mut requirements, config);
    assert(requirement_views(requirements@).to_set() =~= leaf_requirements(*config));
    requirements
}

/// The requirements of every leaf of a document, each once; gathered before
/// anything is read.
pub fn get_requirements_from_leaves(leaves: &Vec<(TestId, TomlConfig)>) -> (r: Vec<
    Requirement,
>)
    ensures
        requirement_set_ok(r@),
        requirement_views(r@).to_set() == leaves_requirements(
            leaves@.map_values(|p: (TestId, TomlConfig)| p.1),
        ),
{
    let ghost configs = leaves@.map_values(|p: (TestId, TomlConfig)| p.1);
    let mut requirements: Vec<Requirement> = Vec::new();
    assert(requirement_views(requirements@) =~= Seq::<RequirementView>::empty());
    assert(configs.subrange(0, 0) =~= Seq::<TomlConfig>::empty());
    let mut i: usize = 0;
    while i < leaves.len()
        invariant
            configs == leaves@.map_values(|p: (TestId, TomlConfig)| p.1),
            i <= leaves@.len(),
            requirement_set_ok(requirements@),
            requirement_views(requirements@).to_set() == leaves_requirements(
                configs.subrange(0, i as int),
            ),
        decreases leaves@.len() - i,
    {
        assert(configs.subrange(0, i + 1).drop_last() =~= configs.subrange(0, i as int));
        add_requirements_of(&mut requirements, &leaves[i].1);
        i = i + 1;
    }
    assert(configs.subrange(0, i as int) =~= configs);
    requirements
}

/// Every requirement of a document: its own fields and, recursively, those
/// of each of its sub-tests.
pub open spec fn document_requirements(c: TomlConfig) -> Set<RequirementView>
    decreases c, 0int,
{
    leaf_requirements(c) + match c.tests {
        Some(tests) => subtests_requirements(tests, 0),
        None => Set::empty(),
    }
}

/// The requirements of the sub-tests of a document from the `k`-th on.
pub open spec fn subtests_requirements(tests: Vec<(String, TomlConfig)>, k: int) -> Set<
    RequirementView,
>
    decreases tests, tests@.len() - k,
{
    if k < 0 || k >= tests@.len() {
        Set::empty()
    } else {
        document_requirements(tests[k].1) + subtests_requirements(tests, k + 1)
    }
}

impl TomlConfig {
    /// The requirements of the whole document, sub-tests included, each once.
    /// Nothing is read here.
    pub fn get_requirements(&self) -> (r: Vec<Requirement>)
        ensures
            requirement_set_ok(r@),
            requirement_views(r@).to_set() == document_requirements(*self),
        decreases self,
    {
        let mut requirements = get_requirements_from_leaf_config(self);
        let ghost own = leaf_requirements(*self);
        match &self.tests {
            Some(tests) => {
                let n = tests.len();
                let mut k: usize = 0;
                assert(own =~= own + Set::<RequirementView>::empty());
                while k < n
                    invariant
                        self.tests == Some(*tests),
                        n == tests@.len(),
                        k <= n,
                        requirement_set_ok(requirements@),
                        requirement_views(requirements@).to_set() + subtests_requirements(
                            *tests,
                            k as int,
                        ) == own + subtests_requirements(*tests, 0),
                    decreases n - k,
                {
                    proof {
                        assert(decreases_to!(*self => (*self).tests));
                        assert(decreases_to!((*self).tests => (*self).tests->Some_0));
                        assert(decreases_to!((*self).tests->Some_0 => (*self).tests->Some_0[k as int]));
                        assert(decreases_to!((*self).tests->Some_0[k as int] => (*self).tests->Some_0[k as int].1));
                    }
                    let sub = tests[k].1.get_requirements();
                    let ghost before = requirement_views(requirements@).to_set();
                    let ghost sub_set = requirement_views(sub@).to_set();
                    let mut i: usize = 0;
                    assert(sub@.subrange(0, 0) =~= Seq::<Requirement>::empty());
                    assert(before =~= before + requirement_views(sub@.subrange(0, 0)).to_set());
                    while i < sub.len()
                        invariant
                            i <= sub@.len(),
                            requirement_set_ok(requirements@),
                            requirement_views(requirements@).to_set() == before + requirement_views(
                                sub@.subrange(0, i as int),
                            ).to_set(),
                        decreases sub@.len() - i,
                    {
                        let ghost cur = requirement_views(requirements@).to_set();
                        insert_requirement(&mut requirements, clone_requirement(&sub[i]));
                        assert(requirement_views(sub@.subrange(0, i + 1)) =~= requirement_views(
                            sub@.subrange(0, i as int),
                        ).push(sub@[i as int]@));
                        assert(requirement_views(sub@.subrange(0, i + 1)).to_set() =~= requirement_views(
                            sub@.subrange(0, i as int),
                        ).to_set().insert(sub@[i as int]@)) by {
                            let a = requirement_views(sub@.subrange(0, i as int));
                            let x = sub@[i as int]@;
                            assert forall|y: RequirementView| #[trigger] a.push(x).contains(y) implies a.to_set().insert(x).contains(y) by {
                                let j = choose|j: int| 0 <= j < a.len() + 1 && a.push(x)[j] == y;
                                if j < a.len() {
                                    assert(a.contains(y));
                                }
                            }
                            assert forall|y: RequirementView| #[trigger] a.to_set().insert(x).contains(y) implies a.push(x).contains(y) by {
                                if y == x {
                                    assert(a.push(x)[a.len() as int] == y);
                                } else {
                                    let j = choose|j: int| 0 <= j < a.len() && a[j] == y;
                                    assert(a.push(x)[j] == y);
                                }
                            }
                        }
                        assert(requirement_views(requirements@).to_set() =~= before + requirement_views(
                            sub@.subrange(0, i + 1),
                        ).to_set());
                        i = i + 1;
                    }
                    assert(sub@.subrange(0, i as int) =~= sub@);
                    assert(requirement_views(requirements@).to_set() =~= before + sub_set);
                    assert(requirement_views(requirements@).to_set() + subtests_requirements(
                        *tests,
                        k + 1,
                    ) =~= before + subtests_requirements(*tests, k as int));
                    k = k + 1;
                }
                assert(subtests_requirements(*tests, n as int) =~= Set::<RequirementView>::empty());
                assert(requirement_views(requirements@).to_set() =~= document_requirements(*self));
            },
            None => {
                assert(requirement_views(requirements@).to_set() =~= document_requirements(*self));
            },
        }
        requirements
    }
}

// READ CONTENT

/// What was read for each requirement: `None` where the file or variable
/// could not be read.
pub struct TomlConfigData {
    files: Vec<(String, Option<String>)>,
    env: Vec<(String, Option<String>)>,
}

/// Another name for the data read for a document.
pub type TestConfigData = TomlConfigData;


/// The table that a list of entries makes; a later entry wins over an earlier one.
pub open spec fn entries_map(s: Seq<(String, Option<String>)>) -> Map<Seq<char>, Option<Seq<char>>>
    decreases s.len(),
{
    if s.len() == 0 {
        Map::empty()
    } else {
        entries_map(s.drop_last()).insert(s.last().0@, opt_text(s.last().1))
    }
}

/// What the lookup of `key` in a table gives: `None` both for a key that is
/// not there and for one whose read failed.
pub open spec fn lookup(m: Map<Seq<char>, Option<Seq<char>>>, key: Seq<char>) -> Option<Seq<char>> {
    if m.contains_key(key) {
        m[key]
    } else {
        None
    }
}

/// The data as tables, and the names of each table in the order kept.
pub struct DataView {
    pub files: Map<Seq<char>, Option<Seq<char>>>,
    pub env: Map<Seq<char>, Option<Seq<char>>>,
    pub file_keys: Seq<Seq<char>>,
    pub env_keys: Seq<Seq<char>>,
}

pub open spec fn keys_of(s: Seq<(String, Option<String>)>) -> Seq<Seq<char>> {
    s.map_values(|e: (String, Option<String>)| e.0@)
}

/// Names in strictly increasing order, hence without repeats.
pub open spec fn strictly_ascending(s: Seq<Seq<char>>) -> bool {
    forall|i: int, j: int| 0 <= i < j < s.len() ==> text_lt(#[trigger] s[i], #[trigger] s[j])
}

impl View for TomlConfigData {
    type V = DataView;

    closed spec fn view(&self) -> DataView {
        DataView {
            files: entries_map(self.files@),
            env: entries_map(self.env@),
            file_keys: keys_of(self.files@),
            env_keys: keys_of(self.env@),
        }
    }
}

/// The tables that reading `values[i]` for `requirements[i]` gives.
pub open spec fn gathered_files(reqs: Seq<RequirementView>, values: Seq<Option<Seq<char>>>) -> Map<
    Seq<char>,
    Option<Seq<char>>,
>
    decreases reqs.len(),
{
    if reqs.len() == 0 || values.len() == 0 {
        Map::empty()
    } else {
        let m = gathered_files(reqs.drop_last(), values.drop_last());
        match reqs.last() {
            RequirementView::ExternalFile(p) => m.insert(p, values.last()),
            RequirementView::EnvVar(_) => m,
        }
    }
}

pub open spec fn gathered_env(reqs: Seq<RequirementView>, values: Seq<Option<Seq<char>>>) -> Map<
    Seq<char>,
    Option<Seq<char>>,
>
    decreases reqs.len(),
{
    if reqs.len() == 0 || values.len() == 0 {
        Map::empty()
    } else {
        let m = gathered_env(reqs.drop_last(), values.drop_last());
        match reqs.last() {
            RequirementView::ExternalFile(_) => m,
            RequirementView::EnvVar(n) => m.insert(n, values.last()),
        }
    }
}

proof fn lemma_lookup_last(s: Seq<(String, Option<String>)>, key: Seq<char>, i: int)
    requires
        0 <= i <= s.len(),
        forall|j: int| i <= j < s.len() ==> (#[trigger] s[j]).0@ != key,
    ensures
        lookup(entries_map(s), key) == lookup(entries_map(s.subrange(0, i)), key),
    decreases s.len() - i,
{
    if i < s.len() {
        lemma_lookup_last(s.drop_last(), key, i);
        assert(s.drop_last().subrange(0, i) =~= s.subrange(0, i));
    } else {
        assert(s.subrange(0, i) =~= s);
    }
}

fn find_entry(entries: &Vec<(String, Option<String>)>, key: &String) -> (r: Option<String>)
    ensures
        opt_text(r) == lookup(entries_map(entries@), key@),
{
    let mut i = entries.len();
    while i > 0
        invariant
            i <= entries@.len(),
            forall|j: int| i <= j < entries@.len() ==> (#[trigger] entries@[j]).0@ != key@,
        decreases i,
    {
        if entries[i - 1].0 == *key {
            proof {
                lemma_lookup_last(entries@, key@, i as int);
                assert(entries@.subrange(0, i as int).drop_last() =~= entries@.subrange(
                    0,
                    i - 1,
                ));
            }
            return match &entries[i - 1].1 {
                Some(v) => Some(v.clone()),
                None => None,
            };
        }
        i = i - 1;
    }
    proof {
        lemma_lookup_last(entries@, key@, 0);
        assert(entries@.subrange(0, 0) =~= Seq::<(String, Option<String>)>::empty());
    }
    None
}

fn clone_text(o: &Option<String>) -> (r: Option<String>)
    ensures
        r == *o,
{
    match o {
        Some(v) => Some(v.clone()),
        None => None,
    }
}

proof fn lemma_key_of(s: Seq<(String, Option<String>)>, j: int)
    requires
        0 <= j < s.len(),
    ensures
        entries_map(s).contains_key(s[j].0@),
    decreases s.len(),
{
    if j < s.len() - 1 {
        lemma_key_of(s.drop_last(), j);
        assert(s.drop_last()[j] == s[j]);
    }
}

proof fn lemma_key_in(s: Seq<(String, Option<String>)>, k: Seq<char>) -> (j: int)
    requires
        entries_map(s).contains_key(k),
    ensures
        0 <= j < s.len() && s[j].0@ == k,
    decreases s.len(),
{
    if s.len() == 0 {
        assert(false);
        0
    } else if s.last().0@ == k {
        s.len() - 1
    } else {
        let j = lemma_key_in(s.drop_last(), k);
        assert(s.drop_last()[j] == s[j]);
        j
    }
}

proof fn lemma_keys_and_map(s: Seq<(String, Option<String>)>)
    ensures
        forall|k: Seq<char>| entries_map(s).contains_key(k) <==> keys_of(s).contains(k),
{
    assert forall|k: Seq<char>| entries_map(s).contains_key(k) implies keys_of(s).contains(k) by {
        let j = lemma_key_in(s, k);
        assert(keys_of(s)[j] == k);
    }
    assert forall|k: Seq<char>| keys_of(s).contains(k) implies entries_map(s).contains_key(k) by {
        let j = choose|j: int| 0 <= j < keys_of(s).len() && keys_of(s)[j] == k;
        lemma_key_of(s, j);
    }
}

/// One entry per key of a table: the key, and whether its read succeeded.
fn presence_list(entries: &Vec<(String, Option<String>)>) -> (r: Vec<(String, bool)>)
    ensures
        r@.len() == entries@.len(),
        forall|i: int| 0 <= i < r@.len() ==> (#[trigger] r@[i]).0@ == keys_of(entries@)[i],
        forall|i: int|
            0 <= i < r@.len() ==> entries_map(entries@).contains_key((#[trigger] r@[i]).0@),
        forall|k: Seq<char>|
            entries_map(entries@).contains_key(k) ==> exists|i: int|
                0 <= i < r@.len() && (#[trigger] r@[i]).0@ == k,
        forall|i: int|
            0 <= i < r@.len() ==> (#[trigger] r@[i]).1 == (entries_map(entries@)[r@[i].0@] is Some),
{
    let mut out: Vec<(String, bool)> = Vec::new();
    let mut i: usize = 0;
    while i < entries.len()
        invariant
            i <= entries@.len(),
            out@.len() == i,
            forall|j: int| 0 <= j < i ==> (#[trigger] out@[j]).0@ == entries@[j].0@,
            forall|j: int|
                0 <= j < i ==> entries_map(entries@).contains_key((#[trigger] out@[j]).0@),
            forall|j: int|
                0 <= j < i ==> (#[trigger] out@[j]).1 == (entries_map(entries@)[out@[j].0@] is Some),
        decreases entries@.len() - i,
    {
        let key = entries[i].0.clone();
        let present = find_entry(entries, &key).is_some();
        proof {
            lemma_key_of(entries@, i as int);
        }
        out.push((key, present));
        i = i + 1;
    }
    assert forall|k: Seq<char>| entries_map(entries@).contains_key(k) implies exists|i: int|
        0 <= i < out@.len() && (#[trigger] out@[i]).0@ == k by {
        let j = lemma_key_in(entries@, k);
        assert(out@[j].0@ == k);
    }
    out
}

proof fn lemma_exists_none(s: Seq<(String, Option<String>)>, i: int)
    requires
        0 <= i < s.len(),
        s[i].1 is None,
        lookup(entries_map(s), s[i].0@) is Some,
    ensures
        exists|j: int| i < j < s.len() && (#[trigger] s[j]).0@ == s[i].0@,
{
    if forall|j: int| i < j < s.len() ==> (#[trigger] s[j]).0@ != s[i].0@ {
        lemma_lookup_last(s, s[i].0@, i + 1);
        assert(s.subrange(0, i + 1).drop_last() =~= s.subrange(0, i));
        assert(s.subrange(0, i + 1).last() == s[i]);
    }
}

impl TomlConfigData {
    #[verifier::type_invariant]
    spec fn inv(&self) -> bool {
        strictly_ascending(keys_of(self.files@)) && strictly_ascending(keys_of(self.env@))
    }

    pub fn new() -> (r: TomlConfigData)
        ensures
            r@.files == Map::<Seq<char>, Option<Seq<char>>>::empty(),
            r@.env == Map::<Seq<char>, Option<Seq<char>>>::empty(),
            r@.file_keys == Seq::<Seq<char>>::empty(),
            r@.env_keys == Seq::<Seq<char>>::empty(),
    {
        assert(keys_of(Seq::<(String, Option<String>)>::empty()) =~= Seq::<Seq<char>>::empty());
        TomlConfigData { env: Vec::new(), files: Vec::new() }
    }

    /// The text read from the file at `key`, if it was read.
    pub fn get_file(&self, key: &String) -> (r: Option<String>)
        ensures
            opt_text(r) == lookup(self@.files, key@),
    {
        find_entry(&self.files, key)
    }

    /// The value read from the variable `key`, if it was set.
    pub fn get_env_var(&self, key: &String) -> (r: Option<String>)
        ensures
            opt_text(r) == lookup(self@.env, key@),
    {
        find_entry(&self.env, key)
    }

    /// Each file requirement, with whether it could be read.
    pub fn file_requirements(&self) -> (r: Vec<(String, bool)>)
        ensures
            r@.len() == self@.file_keys.len(),
            strictly_ascending(self@.file_keys),
            forall|i: int|
                0 <= i < r@.len() ==> (#[trigger] r@[i]).0@ == self@.file_keys[i] && r@[i].1 == (
                self@.files[self@.file_keys[i]] is Some),
            forall|k: Seq<char>| self@.files.contains_key(k) <==> self@.file_keys.contains(k),
    {
        proof {
            use_type_invariant(self);
            lemma_keys_and_map(self.files@);
        }
        presence_list(&self.files)
    }

    /// Each environment requirement, with whether the variable was set.
    pub fn env_requirements(&self) -> (r: Vec<(String, bool)>)
        ensures
            r@.len() == self@.env_keys.len(),
            strictly_ascending(self@.env_keys),
            forall|i: int|
                0 <= i < r@.len() ==> (#[trigger] r@[i]).0@ == self@.env_keys[i] && r@[i].1 == (
                self@.env[self@.env_keys[i]] is Some),
            forall|k: Seq<char>| self@.env.contains_key(k) <==> self@.env_keys.contains(k),
    {
        proof {
            use_type_invariant(self);
            lemma_keys_and_map(self.env@);
        }
        presence_list(&self.env)
    }

    pub fn any_missing_file_requirements(&self) -> (r: bool)
        ensures
            r == exists|k: Seq<char>| self@.files.contains_key(k) && #[trigger] self@.files[k] is None,
    {
        any_missing(&self.files)
    }

    pub fn any_missing_env_requirements(&self) -> (r: bool)
        ensures
            r == exists|k: Seq<char>| self@.env.contains_key(k) && #[trigger] self@.env[k] is None,
    {
        any_missing(&self.env)
    }
}

fn any_missing(entries: &Vec<(String, Option<String>)>) -> (r: bool)
    ensures
        r == exists|k: Seq<char>|
            entries_map(entries@).contains_key(k) && #[trigger] entries_map(entries@)[k] is None,
{
    let mut i: usize = 0;
    while i < entries.len()
        invariant
            i <= entries@.len(),
            forall|j: int|
                0 <= j < i ==> (#[trigger] entries@[j]).1 is None ==> exists|l: int|
                    j < l < entries@.len() && (#[trigger] entries@[l]).0@ == entries@[j].0@,
        decreases entries@.len() - i,
    {
        if entries[i].1.is_none() {
            let key = entries[i].0.clone();
            if find_entry(entries, &key).is_none() {
                proof {
                    lemma_key_of(entries@, i as int);
                }
                return true;
            }
            proof {
                lemma_exists_none(entries@, i as int);
            }
        }
        i = i + 1;
    }
    assert forall|k: Seq<char>| entries_map(entries@).contains_key(k) implies #[trigger] entries_map(
        entries@,
    )[k] is Some by {
        let w = lemma_key_in(entries@, k);
        assert forall|j: int|
            0 <= j < entries@.len() && (#[trigger] entries@[j]).0@ == k && entries@[j].1 is None implies exists|l: int|
            j < l < entries@.len() && (#[trigger] entries@[l]).0@ == k by {
            let l = choose|l: int| j < l < entries@.len() && (#[trigger] entries@[l]).0@ == entries@[j].0@;
        }
        lemma_last_entry(entries@, k);
    }
    false
}

proof fn lemma_last_entry(s: Seq<(String, Option<String>)>, k: Seq<char>)
    requires
        forall|j: int|
            0 <= j < s.len() && (#[trigger] s[j]).0@ == k && s[j].1 is None ==> exists|l: int|
                j < l < s.len() && (#[trigger] s[l]).0@ == k,
        exists|j: int| 0 <= j < s.len() && (#[trigger] s[j]).0@ == k,
    ensures
        entries_map(s).contains_key(k) && entries_map(s)[k] is Some,
    decreases s.len(),
{
    let n = s.len() - 1;
    if s[n].0@ == k {
        assert(s[n].1 is None ==> exists|l: int| n < l < s.len() && (#[trigger] s[l]).0@ == k);
    } else {
        let j = choose|j: int| 0 <= j < s.len() && (#[trigger] s[j]).0@ == k;
        let t = s.drop_last();
        assert(t[j] == s[j]);
        assert forall|a: int|
            0 <= a < t.len() && (#[trigger] t[a]).0@ == k && t[a].1 is None implies exists|l: int|
            a < l < t.len() && (#[trigger] t[l]).0@ == k by {
            assert(s[a] == t[a]);
            let l = choose|l: int| a < l < s.len() && (#[trigger] s[l]).0@ == k;
            assert(t[l] == s[l]);
        }
        lemma_last_entry(t, k);
    }
}

/// Builds the data from what was read: `values[i]` is the outcome of reading
/// `requirements[i]`.
pub fn gather_requirements(requirements: &Vec<Requirement>, values: Vec<Option<String>>) -> (r:
    TomlConfigData)
    requires
        requirement_set_ok(requirements@),
        requirements@.len() == values@.len(),
    ensures
        r@.files == gathered_files(
            requirement_views(requirements@),
            values@.map_values(|v: Option<String>| opt_text(v)),
        ),
        r@.env == gathered_env(
            requirement_views(requirements@),
            values@.map_values(|v: Option<String>| opt_text(v)),
        ),
{
    let ghost reqs = requirement_views(requirements@);
    let ghost rk = requirement_keys(requirements@);
    let ghost vals = values@.map_values(|v: Option<String>| opt_text(v));
    let n = requirements.len();
    let mut files: Vec<(String, Option<String>)> = Vec::new();
    let mut env: Vec<(String, Option<String>)> = Vec::new();
    assert(keys_of(files@) =~= Seq::<Seq<char>>::empty());
    let mut i: usize = 0;
    while i < n
        invariant
            n == requirements@.len(),
            reqs == requirement_views(requirements@),
            rk == requirement_keys(requirements@),
            sorted_by_key(rk),
            vals == values@.map_values(|v: Option<String>| opt_text(v)),
            requirements@.len() == values@.len(),
            i <= n,
            entries_map(files@) == gathered_files(reqs.subrange(0, i as int), vals.subrange(0, i as int)),
            entries_map(env@) == gathered_env(reqs.subrange(0, i as int), vals.subrange(0, i as int)),
            strictly_ascending(keys_of(files@)),
            strictly_ascending(keys_of(env@)),
            forall|a: int, q: int|
                0 <= a < files@.len() && i <= q < n ==> key_lt((0int, #[trigger] keys_of(files@)[a]), #[trigger] rk[q]),
            forall|a: int, q: int|
                0 <= a < env@.len() && i <= q < n ==> key_lt((1int, #[trigger] keys_of(env@)[a]), #[trigger] rk[q]),
        decreases n - i,
    {
        assert(reqs.subrange(0, i + 1).drop_last() =~= reqs.subrange(0, i as int));
        assert(vals.subrange(0, i + 1).drop_last() =~= vals.subrange(0, i as int));
        let value = clone_text(&values[i]);
        let ghost files_before = files@;
        let ghost env_before = env@;
        assert(rk[i as int] == requirement_key(reqs[i as int]));
        match &requirements[i] {
            Requirement::ExternalFile(path) => {
                files.push((path.clone(), value));
                assert(files@.drop_last() =~= files_before);
                assert(keys_of(files@) =~= keys_of(files_before).push(path@));
                assert forall|a: int, b: int| 0 <= a < b < keys_of(files@).len() implies text_lt(#[trigger] keys_of(files@)[a], #[trigger] keys_of(files@)[b]) by {
                    if b == files_before.len() {
                        assert(key_lt((0int, keys_of(files_before)[a]), rk[i as int]));
                    } else {
                        assert(keys_of(files@)[a] == keys_of(files_before)[a]);
                        assert(keys_of(files@)[b] == keys_of(files_before)[b]);
                    }
                }
                assert forall|a: int, q: int| 0 <= a < files@.len() && i + 1 <= q < n implies key_lt((0int, #[trigger] keys_of(files@)[a]), #[trigger] rk[q]) by {
                    if a == files_before.len() {
                        assert(key_lt(rk[i as int], rk[q]));
                    } else {
                        assert(keys_of(files@)[a] == keys_of(files_before)[a]);
                    }
                }
            },
            Requirement::EnvVar(var_name) => {
                env.push((var_name.clone(), value));
                assert(env@.drop_last() =~= env_before);
                assert(keys_of(env@) =~= keys_of(env_before).push(var_name@));
                assert forall|a: int, b: int| 0 <= a < b < keys_of(env@).len() implies text_lt(#[trigger] keys_of(env@)[a], #[trigger] keys_of(env@)[b]) by {
                    if b == env_before.len() {
                        assert(key_lt((1int, keys_of(env_before)[a]), rk[i as int]));
                    } else {
                        assert(keys_of(env@)[a] == keys_of(env_before)[a]);
                        assert(keys_of(env@)[b] == keys_of(env_before)[b]);
                    }
                }
                assert forall|a: int, q: int| 0 <= a < env@.len() && i + 1 <= q < n implies key_lt((1int, #[trigger] keys_of(env@)[a]), #[trigger] rk[q]) by {
                    if a == env_before.len() {
                        assert(key_lt(rk[i as int], rk[q]));
                    } else {
                        assert(keys_of(env@)[a] == keys_of(env_before)[a]);
                    }
                }
            },
        }
        i = i + 1;
    }
    assert(reqs.subrange(0, i as int) =~= reqs);
    assert(vals.subrange(0, i as int) =~= vals);
    TomlConfigData { files, env }
}

// VALIDATION

/// Why a leaf cannot become a test case.
#[derive(PartialEq, Eq, PartialOrd, Ord, Debug)]
pub enum TestCaseValidationError {
    MissingExternalFile(String),
    MissingEnvVar(String),
    FailedToParseString,
    ProgramRequired,
    ProgramNotFound(String),
    ExpectationRequired,
}

pub enum ValidationErrorView {
    MissingExternalFile(Seq<char>),
    MissingEnvVar(Seq<char>),
    FailedToParseString,
    ProgramRequired,
    ProgramNotFound(Seq<char>),
    ExpectationRequired,
}

impl View for TestCaseValidationError {
    type V = ValidationErrorView;

    open spec fn view(&self) -> ValidationErrorView {
        match self {
            TestCaseValidationError::MissingExternalFile(p) => ValidationErrorView::MissingExternalFile(p@),
            TestCaseValidationError::MissingEnvVar(n) => ValidationErrorView::MissingEnvVar(n@),
            TestCaseValidationError::FailedToParseString => ValidationErrorView::FailedToParseString,
            TestCaseValidationError::ProgramRequired => ValidationErrorView::ProgramRequired,
            TestCaseValidationError::ProgramNotFound(p) => ValidationErrorView::ProgramNotFound(p@),
            TestCaseValidationError::ExpectationRequired => ValidationErrorView::ExpectationRequired,
        }
    }
}

pub open spec fn error_views(v: Seq<TestCaseValidationError>) -> Seq<ValidationErrorView> {
    v.map_values(|e: TestCaseValidationError| e@)
}

/// Errors sort by kind, in the order of their declaration, then by text.
pub open spec fn error_key(e: ValidationErrorView) -> (int, Seq<char>) {
    match e {
        ValidationErrorView::MissingExternalFile(p) => (0, p),
        ValidationErrorView::MissingEnvVar(n) => (1, n),
        ValidationErrorView::FailedToParseString => (2, Seq::empty()),
        ValidationErrorView::ProgramRequired => (3, Seq::empty()),
        ValidationErrorView::ProgramNotFound(p) => (4, p),
        ValidationErrorView::ExpectationRequired => (5, Seq::empty()),
    }
}

pub open spec fn error_keys(v: Seq<TestCaseValidationError>) -> Seq<(int, Seq<char>)> {
    v.map_values(|e: TestCaseValidationError| error_key(e@))
}

/// A list of errors kept as a set: no repeats, in sorted order.
pub open spec fn error_set_ok(v: Seq<TestCaseValidationError>) -> bool {
    error_views(v).no_duplicates() && sorted_by_key(error_keys(v))
}

impl SortKey for TestCaseValidationError {
    open spec fn sort_key(&self) -> (int, Seq<char>) {
        error_key(self@)
    }

    fn exec_sort_key(&self) -> (r: (u8, &str)) {
        proof {
            reveal_strlit("");
        }
        match self {
            TestCaseValidationError::MissingExternalFile(p) => (0, p.as_str()),
            TestCaseValidationError::MissingEnvVar(n) => (1, n.as_str()),
            TestCaseValidationError::FailedToParseString => (2, ""),
            TestCaseValidationError::ProgramRequired => (3, ""),
            TestCaseValidationError::ProgramNotFound(p) => (4, p.as_str()),
            TestCaseValidationError::ExpectationRequired => (5, ""),
        }
    }
}

/// Adds `err` to a sorted error set without repeats.
fn insert_error(errors: &mut Vec<TestCaseValidationError>, err: TestCaseValidationError)
    requires
        error_set_ok(old(errors)@),
    ensures
        error_set_ok(final(errors)@),
        error_views(final(errors)@).to_set() == error_views(old(errors)@).to_set().insert(err@),
{
    let ghost before = errors@;
    let ghost s = error_views(before);
    let ghost x = err@;
    assert(sort_keys(before) =~= error_keys(before));
    let ghost e0 = err;
    let inserted = insert_sorted(errors, err);
    assert(sort_keys(errors@) =~= error_keys(errors@));
    proof {
        if !inserted {
            let j = choose|j: int| 0 <= j < before.len() && sort_keys(before)[j] == e0.sort_key();
            assert(s[j] == x);
            assert(s.to_set() =~= s.to_set().insert(x)) by {
                assert(s.contains(x));
            }
        } else {
            let k = choose|k: int| 0 <= k <= before.len() && errors@ == before.insert(k, e0);
            if s.contains(x) {
                let j = choose|j: int| 0 <= j < s.len() && s[j] == x;
                assert(sort_keys(before)[j] == e0.sort_key());
            }
            lemma_insert_distinct(s, k, x);
            assert(error_views(errors@) =~= s.insert(k, x));
        }
    }
}

/// The value of a decimal numeral: optional sign, then at least one digit,
/// within the range of `i32`; `None` for any other text.
pub open spec fn digits_value(s: Seq<char>) -> int
    decreases s.len(),
{
    if s.len() == 0 {
        0
    } else {
        digits_value(s.drop_last()) * 10 + (s.last() as int - '0' as int)
    }
}

pub open spec fn all_digits(s: Seq<char>) -> bool {
    s.len() > 0 && forall|i: int| 0 <= i < s.len() ==> '0' <= #[trigger] s[i] <= '9'
}

pub open spec fn decimal_i32(s: Seq<char>) -> Option<i32> {
    let negative = s.len() > 0 && s[0] == '-';
    let signed = s.len() > 0 && (s[0] == '-' || s[0] == '+');
    let body = if signed {
        s.drop_first()
    } else {
        s
    };
    let v = if negative {
        -digits_value(body)
    } else {
        digits_value(body)
    };
    if all_digits(body) && i32::MIN <= v <= i32::MAX {
        Some(v as i32)
    } else {
        None
    }
}

/// Relies on `str::parse::<i32>`: a decimal numeral with an optional sign,
/// in range; anything else is an error.
#[verifier::external_body]
fn parse_i32(s: &str) -> (r: Option<i32>)
    ensures
        r == decimal_i32(s@),
{
    s.parse::<i32>().ok()
}

/// The outcome of resolving a text value against the data.
pub open spec fn read_text(v: ConfigValue<String>, d: DataView) -> Result<Seq<char>, ValidationErrorView> {
    match v {
        ConfigValue::Literal(t) => Ok(t@),
        ConfigValue::WrappedLiteral { value } => Ok(value@),
        ConfigValue::ReadFromFile { file } => match lookup(d.files, file@) {
            Some(t) => Ok(t),
            None => Err(ValidationErrorView::MissingExternalFile(file@)),
        },
        ConfigValue::FetchFromEnv { env } => match lookup(d.env, env@) {
            Some(t) => Ok(t),
            None => Err(ValidationErrorView::MissingEnvVar(env@)),
        },
    }
}

/// The outcome of resolving a number value against the data: text read
/// from outside must be a decimal numeral.
pub open spec fn read_number(v: ConfigValue<i32>, d: DataView) -> Result<i32, ValidationErrorView> {
    match v {
        ConfigValue::Literal(n) => Ok(n),
        ConfigValue::WrappedLiteral { value } => Ok(value),
        ConfigValue::ReadFromFile { file } => match lookup(d.files, file@) {
            Some(t) => match decimal_i32(t) {
                Some(n) => Ok(n),
                None => Err(ValidationErrorView::FailedToParseString),
            },
            None => Err(ValidationErrorView::MissingExternalFile(file@)),
        },
        ConfigValue::FetchFromEnv { env } => match lookup(d.env, env@) {
            Some(t) => match decimal_i32(t) {
                Some(n) => Ok(n),
                None => Err(ValidationErrorView::FailedToParseString),
            },
            None => Err(ValidationErrorView::MissingEnvVar(env@)),
        },
    }
}

impl ConfigValue<String> {
    pub fn read(self, data: &TomlConfigData) -> (r: Result<String, TestCaseValidationError>)
        ensures
            r is Ok <==> read_text(self, data@) is Ok,
            r is Ok ==> r->Ok_0@ == read_text(self, data@)->Ok_0,
            r is Err ==> r->Err_0@ == read_text(self, data@)->Err_0,
    {
        match self {
            ConfigValue::Literal(value) => Ok(value),
            ConfigValue::WrappedLiteral { value } => Ok(value),
            ConfigValue::ReadFromFile { file: file_path } => {
                match data.get_file(&file_path) {
                    Some(text) => Ok(text),
                    None => Err(TestCaseValidationError::MissingExternalFile(file_path)),
                }
            },
            ConfigValue::FetchFromEnv { env: var_name } => {
                match data.get_env_var(&var_name) {
                    Some(text) => Ok(text),
                    None => Err(TestCaseValidationError::MissingEnvVar(var_name)),
                }
            },
        }
    }
}

impl ConfigValue<i32> {
    pub fn read(self, data: &TomlConfigData) -> (r: Result<i32, TestCaseValidationError>)
        ensures
            r is Ok <==> read_number(self, data@) is Ok,
            r is Ok ==> r->Ok_0 == read_number(self, data@)->Ok_0,
            r is Err ==> r->Err_0@ == read_number(self, data@)->Err_0,
    {
        match self {
            ConfigValue::Literal(value) => Ok(value),
            ConfigValue::WrappedLiteral { value } => Ok(value),
            ConfigValue::ReadFromFile { file: file_path } => {
                match data.get_file(&file_path) {
                    Some(text) => match parse_i32(text.as_str()) {
                        Some(n) => Ok(n),
                        None => Err(TestCaseValidationError::FailedToParseString),
                    },
                    None => Err(TestCaseValidationError::MissingExternalFile(file_path)),
                }
            },
            ConfigValue::FetchFromEnv { env: var_name } => {
                match data.get_env_var(&var_name) {
                    Some(text) => match parse_i32(text.as_str()) {
                        Some(n) => Ok(n),
                        None => Err(TestCaseValidationError::FailedToParseString),
                    },
                    None => Err(TestCaseValidationError::MissingEnvVar(var_name)),
                }
            },
        }
    }
}

/// The errors that resolving an optional text field records.
pub open spec fn text_field_errors(v: Option<ConfigValue<String>>, d: DataView) -> Set<ValidationErrorView> {
    match v {
        Some(c) => match read_text(c, d) {
            Ok(_) => Set::empty(),
            Err(e) => set![e],
        },
        None => Set::empty(),
    }
}

/// The value that resolving an optional text field gives.
pub open spec fn text_field_value(v: Option<ConfigValue<String>>, d: DataView) -> Option<Seq<char>> {
    match v {
        Some(c) => match read_text(c, d) {
            Ok(t) => Some(t),
            Err(_) => None,
        },
        None => None,
    }
}

pub open spec fn number_field_errors(v: Option<ConfigValue<i32>>, d: DataView) -> Set<ValidationErrorView> {
    match v {
        Some(c) => match read_number(c, d) {
            Ok(_) => Set::empty(),
            Err(e) => set![e],
        },
        None => Set::empty(),
    }
}

pub open spec fn number_field_value(v: Option<ConfigValue<i32>>, d: DataView) -> Option<i32> {
    match v {
        Some(c) => match read_number(c, d) {
            Ok(n) => Some(n),
            Err(_) => None,
        },
        None => None,
    }
}

fn read_from_config_value(
    validation_errors: &mut Vec<TestCaseValidationError>,
    config_value: Option<ConfigValue<String>>,
    data: &TomlConfigData,
) -> (r: Option<String>)
    requires
        error_set_ok(old(validation_errors)@),
    ensures
        error_set_ok(final(validation_errors)@),
        error_views(final(validation_errors)@).to_set() == error_views(
            old(validation_errors)@,
        ).to_set() + text_field_errors(config_value, data@),
        opt_text(r) == text_field_value(config_value, data@),
{
    let ghost before = error_views(validation_errors@).to_set();
    let ghost cv = config_value;
    match config_value {
        Some(value) => match value.read(data) {
            Ok(v) => {
                assert(before =~= before + text_field_errors(cv, data@));
                Some(v)
            },
            Err(err) => {
                insert_error(validation_errors, err);
                assert(before.insert(err@) =~= before + text_field_errors(cv, data@));
                None
            },
        },
        None => {
            assert(before =~= before + text_field_errors(cv, data@));
            None
        },
    }
}

fn read_number_from_config_value(
    validation_errors: &mut Vec<TestCaseValidationError>,
    config_value: Option<ConfigValue<i32>>,
    data: &TomlConfigData,
) -> (r: Option<i32>)
    requires
        error_set_ok(old(validation_errors)@),
    ensures
        error_set_ok(final(validation_errors)@),
        error_views(final(validation_errors)@).to_set() == error_views(
            old(validation_errors)@,
        ).to_set() + number_field_errors(config_value, data@),
        r == number_field_value(config_value, data@),
{
    let ghost before = error_views(validation_errors@).to_set();
    let ghost cv = config_value;
    match config_value {
        Some(value) => match value.read(data) {
            Ok(v) => {
                assert(before =~= before + number_field_errors(cv, data@));
                Some(v)
            },
            Err(err) => {
                insert_error(validation_errors, err);
                assert(before.insert(err@) =~= before + number_field_errors(cv, data@));
                None
            },
        },
        None => {
            assert(before =~= before + number_field_errors(cv, data@));
            None
        },
    }
}

/// Resolving a value reads nothing itself: two values that name the same
/// file, or the same variable, resolved from one data set give one outcome.
pub proof fn lemma_resolution_shared(a: String, b: String, data: TomlConfigData)
    requires
        a@ == b@,
    ensures
        read_text(ConfigValue::ReadFromFile { file: a }, data@) == read_text(
            ConfigValue::ReadFromFile { file: b },
            data@,
        ),
        read_text(ConfigValue::FetchFromEnv { env: a }, data@) == read_text(
            ConfigValue::FetchFromEnv { env: b },
            data@,
        ),
{
}

// MERGE

/// The first value if there is one, else the second.
pub open spec fn or_else<A>(a: Option<A>, b: Option<A>) -> Option<A> {
    if a is Some {
        a
    } else {
        b
    }
}

fn or_value<A>(a: Option<A>, b: Option<A>) -> (r: Option<A>)
    ensures
        r == or_else(a, b),
{
    match a {
        Some(x) => Some(x),
        None => b,
    }
}

pub open spec fn arguments_view(o: Option<Vec<ConfigValue<String>>>) -> Option<Seq<ConfigValue<String>>> {
    match o {
        Some(v) => Some(v@),
        None => None,
    }
}

/// `r` is `sub` with each field that `sub` leaves unset taken from `base`;
/// the sub-tests are those of `sub` alone.
pub open spec fn is_merge(base: TomlConfig, sub: TomlConfig, r: TomlConfig) -> bool {
    &&& r.description == or_else(sub.description, base.description)
    &&& r.program == or_else(sub.program, base.program)
    &&& arguments_view(r.program_arguments) == or_else(
        arguments_view(sub.program_arguments),
        arguments_view(base.program_arguments),
    )
    &&& r.stdin == or_else(sub.stdin, base.stdin)
    &&& r.expected_stdout == or_else(sub.expected_stdout, base.expected_stdout)
    &&& r.expected_stderr == or_else(sub.expected_stderr, base.expected_stderr)
    &&& r.expected_exit_code == or_else(sub.expected_exit_code, base.expected_exit_code)
    &&& r.tests == sub.tests
}

/// `a` and `b` agree on every field but the sub-tests.
pub open spec fn same_fields(a: TomlConfig, b: TomlConfig) -> bool {
    &&& a.description == b.description
    &&& a.program == b.program
    &&& arguments_view(a.program_arguments) == arguments_view(b.program_arguments)
    &&& a.stdin == b.stdin
    &&& a.expected_stdout == b.expected_stdout
    &&& a.expected_stderr == b.expected_stderr
    &&& a.expected_exit_code == b.expected_exit_code
}

/// A config whose fields are all unset.
pub open spec fn no_fields(c: TomlConfig) -> bool {
    &&& c.description is None
    &&& c.program is None
    &&& c.program_arguments is None
    &&& c.stdin is None
    &&& c.expected_stdout is None
    &&& c.expected_stderr is None
    &&& c.expected_exit_code is None
}

fn clone_text_value(v: &ConfigValue<String>) -> (r: ConfigValue<String>)
    ensures
        r == *v,
{
    match v {
        ConfigValue::Literal(t) => ConfigValue::Literal(t.clone()),
        ConfigValue::WrappedLiteral { value } => ConfigValue::WrappedLiteral { value: value.clone() },
        ConfigValue::ReadFromFile { file } => ConfigValue::ReadFromFile { file: file.clone() },
        ConfigValue::FetchFromEnv { env } => ConfigValue::FetchFromEnv { env: env.clone() },
    }
}

fn clone_text_field(v: &Option<ConfigValue<String>>) -> (r: Option<ConfigValue<String>>)
    ensures
        r == *v,
{
    match v {
        Some(c) => Some(clone_text_value(c)),
        None => None,
    }
}

fn clone_number_field(v: &Option<ConfigValue<i32>>) -> (r: Option<ConfigValue<i32>>)
    ensures
        r == *v,
{
    match v {
        Some(ConfigValue::Literal(n)) => Some(ConfigValue::Literal(*n)),
        Some(ConfigValue::WrappedLiteral { value }) => Some(ConfigValue::WrappedLiteral { value: *value }),
        Some(ConfigValue::ReadFromFile { file }) => Some(ConfigValue::ReadFromFile { file: file.clone() }),
        Some(ConfigValue::FetchFromEnv { env }) => Some(ConfigValue::FetchFromEnv { env: env.clone() }),
        None => None,
    }
}

fn clone_arguments(v: &Option<Vec<ConfigValue<String>>>) -> (r: Option<Vec<ConfigValue<String>>>)
    ensures
        arguments_view(r) == arguments_view(*v),
{
    match v {
        Some(args) => {
            let mut out: Vec<ConfigValue<String>> = Vec::new();
            let mut i: usize = 0;
            while i < args.len()
                invariant
                    i <= args@.len(),
                    out@ =~= args@.subrange(0, i as int),
                decreases args@.len() - i,
            {
                out.push(clone_text_value(&args[i]));
                i = i + 1;
            }
            assert(args@.subrange(0, i as int) =~= args@);
            Some(out)
        },
        None => None,
    }
}

/// A copy of the fields of `c`, without its sub-tests.
fn parent_fields(c: &TomlConfig) -> (r: TomlConfig)
    ensures
        same_fields(r, *c),
        r.tests is None,
{
    TomlConfig {
        description: clone_text_field(&c.description),
        program: clone_text_field(&c.program),
        program_arguments: clone_arguments(&c.program_arguments),
        stdin: clone_text_field(&c.stdin),
        expected_stdout: clone_text_field(&c.expected_stdout),
        expected_stderr: clone_text_field(&c.expected_stderr),
        expected_exit_code: clone_number_field(&c.expected_exit_code),
        tests: None,
    }
}

/// Fills the fields that `prioritized_config` leaves unset from `base_config`.
/// The sub-tests of `base_config` are never passed on.
pub fn merge_toml_configs(base_config: TomlConfig, prioritized_config: TomlConfig) -> (r: TomlConfig)
    ensures
        is_merge(base_config, prioritized_config, r),
{
    TomlConfig {
        description: or_value(prioritized_config.description, base_config.description),
        program: or_value(prioritized_config.program, base_config.program),
        program_arguments: or_value(
            prioritized_config.program_arguments,
            base_config.program_arguments,
        ),
        stdin: or_value(prioritized_config.stdin, base_config.stdin),
        expected_stdout: or_value(prioritized_config.expected_stdout, base_config.expected_stdout),
        expected_stderr: or_value(prioritized_config.expected_stderr, base_config.expected_stderr),
        expected_exit_code: or_value(
            prioritized_config.expected_exit_code,
            base_config.expected_exit_code,
        ),
        tests: prioritized_config.tests,
    }
}

/// Merging under a sub-config that sets no field gives the parent's fields;
/// the sub-tests are the sub-config's own, whatever they are.
pub proof fn lemma_merge_empty_override(base: TomlConfig, sub: TomlConfig, r: TomlConfig)
    requires
        no_fields(sub),
        is_merge(base, sub, r),
    ensures
        same_fields(r, base),
        r.tests == sub.tests,
{
}

/// Whether a document names no sub-tests: no `tests` table, or an empty one.
pub open spec fn has_no_sub_tests(c: TomlConfig) -> bool {
    match c.tests {
        None => true,
        Some(tests) => tests@.len() == 0,
    }
}

/// The leaves of a document: the document itself, at the root, when it names
/// no sub-tests; otherwise one leaf per sub-test, named by it, merged with
/// the document's fields.
pub open spec fn is_split(base: TomlConfig, r: Seq<(TestId, TomlConfig)>) -> bool {
    if has_no_sub_tests(base) {
        r.len() == 1 && r[0].0@ == Seq::<Seq<char>>::empty() && r[0].1 == base
    } else {
        let tests = base.tests->Some_0;
        r.len() == tests@.len() && forall|i: int|
            0 <= i < r.len() ==> (#[trigger] r[i]).0@ == seq![tests@[i].0@] && is_merge(
                base,
                tests@[i].1,
                r[i].1,
            )
    }
}

/// Splits a document into its leaves. Only one level of sub-tests is merged.
pub fn split_toml_config(base_config: TomlConfig) -> (r: Vec<(TestId, TomlConfig)>)
    ensures
        is_split(base_config, r@),
{
    let ghost base = base_config;
    let no_sub_tests = match &base_config.tests {
        Some(tests) => tests.len() == 0,
        None => true,
    };
    if no_sub_tests {
        let mut out: Vec<(TestId, TomlConfig)> = Vec::new();
        out.push((TestId::root(), base_config));
        return out;
    }
    let parent = parent_fields(&base_config);
    match base_config.tests {
        Some(tests) => {
            let mut tests = tests;
            let ghost all = tests@;
            let n = tests.len();
            let mut out: Vec<(TestId, TomlConfig)> = Vec::new();
            let mut i: usize = 0;
            while i < n
                invariant
                    base.tests is Some && base.tests->Some_0@ == all,
                    same_fields(parent, base),
                    n == all.len(),
                    i <= n,
                    tests@ == all.subrange(i as int, n as int),
                    out@.len() == i,
                    forall|j: int|
                        0 <= j < i ==> (#[trigger] out@[j]).0@ == seq![all[j].0@] && is_merge(
                            base,
                            all[j].1,
                            out@[j].1,
                        ),
                decreases n - i,
            {
                assert(tests@[0] == all[i as int]);
                let (name, sub) = tests.remove(0);
                assert(tests@ =~= all.subrange(i + 1, n as int));
                let ghost name_text = name@;
                let mut segments: Vec<String> = Vec::new();
                segments.push(name);
                let id = TestId::new(segments);
                assert(crate::test_id::texts_of(segments@) =~= seq![name_text]);
                let merged = merge_toml_configs(parent_fields(&parent), sub);
                out.push((id, merged));
                i = i + 1;
            }
            out
        },
        None => {
            let mut out: Vec<(TestId, TomlConfig)> = Vec::new();
            out.push((TestId::root(), base_config));
            out
        },
    }
}

// CREATE TEST CASES

/// Where the program of a leaf was found.
#[derive(PartialEq, Eq, Debug)]
pub enum ProgramPath {
    NotSpecified,
    MissingProgram { requested_path: String },
    ResolvedPath { requested_path: String, resolved_path: String },
}

/// `p` is a possible outcome of looking up the program named `requested`.
pub open spec fn program_path_fits(requested: Seq<char>, p: ProgramPath) -> bool {
    match p {
        ProgramPath::NotSpecified => requested.len() == 0,
        ProgramPath::MissingProgram { requested_path } => requested.len() > 0 && requested_path@
            == requested,
        ProgramPath::ResolvedPath { requested_path, resolved_path: _ } => requested.len() > 0
            && requested_path@ == requested,
    }
}

pub open spec fn resolved_of(p: ProgramPath) -> Option<Seq<char>> {
    match p {
        ProgramPath::ResolvedPath { requested_path: _, resolved_path } => Some(resolved_path@),
        _ => None,
    }
}

impl ProgramPath {
    pub fn get_resolved_path(&self) -> (r: Option<String>)
        ensures
            opt_text(r) == resolved_of(*self),
    {
        match self {
            ProgramPath::NotSpecified => None,
            ProgramPath::MissingProgram { requested_path: _ } => None,
            ProgramPath::ResolvedPath { requested_path: _, resolved_path } => Some(
                resolved_path.clone(),
            ),
        }
    }
}

/// Looks the program up, first in `in_dir`, then on the search path.
/// An empty name is no program at all.
pub fn get_program_path(requested_path: String, in_dir: &str) -> (r: ProgramPath)
    ensures
        program_path_fits(requested_path@, r),
{
    if requested_path.unicode_len() == 0 {
        return ProgramPath::NotSpecified;
    }
    match file::find_executable_path(requested_path.as_str(), in_dir) {
        Ok(resolved_path) => ProgramPath::ResolvedPath { requested_path, resolved_path },
        Err(_) => ProgramPath::MissingProgram { requested_path },
    }
}

/// The errors that the program lookup contributes.
pub open spec fn program_errors(p: ProgramPath) -> Set<ValidationErrorView> {
    match p {
        ProgramPath::NotSpecified => set![ValidationErrorView::ProgramRequired],
        ProgramPath::MissingProgram { requested_path } => set![
            ValidationErrorView::ProgramNotFound(requested_path@),
        ],
        ProgramPath::ResolvedPath { requested_path: _, resolved_path: _ } => Set::empty(),
    }
}

/// A leaf with no expectation at all is an error.
pub open spec fn expectation_errors(c: TomlConfig) -> Set<ValidationErrorView> {
    if c.expected_stdout is None && c.expected_stderr is None && c.expected_exit_code is None {
        set![ValidationErrorView::ExpectationRequired]
    } else {
        Set::empty()
    }
}

pub open spec fn arguments_errors(s: Seq<ConfigValue<String>>, d: DataView) -> Set<ValidationErrorView>
    decreases s.len(),
{
    if s.len() == 0 {
        Set::empty()
    } else {
        arguments_errors(s.drop_last(), d) + text_field_errors(Some(s.last()), d)
    }
}

/// The arguments that resolve, in order.
pub open spec fn arguments_values(s: Seq<ConfigValue<String>>, d: DataView) -> Seq<Seq<char>>
    decreases s.len(),
{
    if s.len() == 0 {
        Seq::empty()
    } else {
        let init = arguments_values(s.drop_last(), d);
        match read_text(s.last(), d) {
            Ok(t) => init.push(t),
            Err(_) => init,
        }
    }
}

pub open spec fn optional_arguments_errors(o: Option<Vec<ConfigValue<String>>>, d: DataView) -> Set<
    ValidationErrorView,
> {
    match o {
        Some(v) => arguments_errors(v@, d),
        None => Set::empty(),
    }
}

pub open spec fn optional_arguments_values(o: Option<Vec<ConfigValue<String>>>, d: DataView) -> Seq<
    Seq<char>,
> {
    match o {
        Some(v) => arguments_values(v@, d),
        None => Seq::empty(),
    }
}

/// Every problem of one leaf, given where its program was found.
pub open spec fn leaf_errors(c: TomlConfig, d: DataView, p: ProgramPath) -> Set<ValidationErrorView> {
    text_field_errors(c.program, d) + program_errors(p) + expectation_errors(c) + text_field_errors(
        c.description,
        d,
    ) + optional_arguments_errors(c.program_arguments, d) + text_field_errors(c.stdin, d)
        + text_field_errors(c.expected_stdout, d) + text_field_errors(c.expected_stderr, d)
        + number_field_errors(c.expected_exit_code, d)
}

/// The program name that a leaf asks for; the empty text where it gives none.
pub open spec fn requested_program(c: TomlConfig, d: DataView) -> Seq<char> {
    match text_field_value(c.program, d) {
        Some(t) => t,
        None => Seq::empty(),
    }
}

/// Everything learnt about one leaf.
pub struct TestDetails {
    pub requirements: Vec<Requirement>,
    pub program_path: ProgramPath,
    pub test_case: Result<TestCase, Vec<TestCaseValidationError>>,
}

/// `t` describes the leaf `c` of the document `source_file` at `id`,
/// resolved against `d`: the leaf's requirements; and either every problem
/// it has, each once, or, where it has none, the test case it makes.
pub open spec fn details_fit(
    c: TomlConfig,
    source_file: Seq<char>,
    id: Seq<Seq<char>>,
    d: DataView,
    t: TestDetails,
) -> bool {
    let errors = leaf_errors(c, d, t.program_path);
    &&& requirement_set_ok(t.requirements@)
    &&& requirement_views(t.requirements@).to_set() == leaf_requirements(c)
    &&& (t.test_case is Ok <==> errors == Set::<ValidationErrorView>::empty())
    &&& (t.test_case is Err ==> error_set_ok(t.test_case->Err_0@) && error_views(
        t.test_case->Err_0@,
    ).to_set() == errors)
    &&& (t.test_case is Ok ==> {
        let tc = t.test_case->Ok_0;
        &&& tc.source_file@ == source_file
        &&& tc.id@ == id
        &&& Some(tc.program@) == resolved_of(t.program_path)
        &&& opt_text(tc.description) == text_field_value(c.description, d)
        &&& crate::test_id::texts_of(tc.arguments@) == optional_arguments_values(
            c.program_arguments,
            d,
        )
        &&& opt_text(tc.stdin) == text_field_value(c.stdin, d)
        &&& opt_text(tc.expected_stdout) == text_field_value(c.expected_stdout, d)
        &&& opt_text(tc.expected_stderr) == text_field_value(c.expected_stderr, d)
        &&& tc.expected_exit_code == number_field_value(c.expected_exit_code, d)
    })
}

proof fn lemma_empty_to_set<A>(s: Seq<A>)
    ensures
        (s.len() == 0) == (s.to_set() == Set::<A>::empty()),
{
    if s.len() == 0 {
        assert(s.to_set() =~= Set::<A>::empty());
    } else {
        assert(s.to_set().contains(s[0]));
    }
}

/// Validates one leaf whose program lookup came out as `program_path`.
/// Every field is resolved, and every problem is recorded, before the outcome is decided.
pub fn test_details_with_program(
    toml_config: TomlConfig,
    source_file: String,
    id: TestId,
    data: &TomlConfigData,
    program_path: ProgramPath,
) -> (r: TestDetails)
    ensures
        details_fit(toml_config, source_file@, id@, data@, r),
        r.program_path == program_path,
{
    let ghost c = toml_config;
    let ghost d = data@;
    let mut validation_errors: Vec<TestCaseValidationError> = Vec::new();
    assert(error_views(validation_errors@) =~= Seq::<ValidationErrorView>::empty());
    assert(error_views(validation_errors@).to_set() =~= Set::<ValidationErrorView>::empty());

    let requirements = get_requirements_from_leaf_config(&toml_config);

    let _program = read_from_config_value(&mut validation_errors, toml_config.program, data);
    let ghost e1 = error_views(validation_errors@).to_set();
    match &program_path {
        ProgramPath::NotSpecified => {
            insert_error(&mut validation_errors, TestCaseValidationError::ProgramRequired);
        },
        ProgramPath::MissingProgram { requested_path } => {
            insert_error(
                &mut validation_errors,
                TestCaseValidationError::ProgramNotFound(requested_path.clone()),
            );
        },
        ProgramPath::ResolvedPath { requested_path: _, resolved_path: _ } => {},
    }
    assert(error_views(validation_errors@).to_set() =~= e1 + program_errors(program_path));
    let ghost e2 = error_views(validation_errors@).to_set();

    if toml_config.expected_stdout.is_none() && toml_config.expected_stderr.is_none()
        && toml_config.expected_exit_code.is_none() {
        insert_error(&mut validation_errors, TestCaseValidationError::ExpectationRequired);
    }
    assert(error_views(validation_errors@).to_set() =~= e2 + expectation_errors(c));

    let description = read_from_config_value(&mut validation_errors, toml_config.description, data);
    let ghost e3 = error_views(validation_errors@).to_set();

    let mut arguments: Vec<String> = Vec::new();
    match &toml_config.program_arguments {
        Some(args) => {
            let mut i: usize = 0;
            assert(args@.subrange(0, 0) =~= Seq::<ConfigValue<String>>::empty());
            assert(crate::test_id::texts_of(arguments@) =~= Seq::<Seq<char>>::empty());
            assert(e3 =~= e3 + arguments_errors(args@.subrange(0, 0), d));
            while i < args.len()
                invariant
                    d == data@,
                    i <= args@.len(),
                    error_set_ok(validation_errors@),
                    error_views(validation_errors@).to_set() == e3 + arguments_errors(
                        args@.subrange(0, i as int),
                        d,
                    ),
                    crate::test_id::texts_of(arguments@) == arguments_values(
                        args@.subrange(0, i as int),
                        d,
                    ),
                decreases args@.len() - i,
            {
                let ghost sub = args@.subrange(0, i + 1);
                assert(sub.drop_last() =~= args@.subrange(0, i as int));
                assert(sub.last() == args@[i as int]);
                let ghost before = error_views(validation_errors@).to_set();
                let ghost args_before = arguments@;
                match clone_text_value(&args[i]).read(data) {
                    Ok(arg) => {
                        arguments.push(arg);
                        assert(crate::test_id::texts_of(arguments@) =~= crate::test_id::texts_of(
                            args_before,
                        ).push(read_text(args@[i as int], d)->Ok_0));
                        assert(before =~= before + text_field_errors(Some(args@[i as int]), d));
                    },
                    Err(err) => {
                        insert_error(&mut validation_errors, err);
                        assert(before.insert(err@) =~= before + text_field_errors(
                            Some(args@[i as int]),
                            d,
                        ));
                    },
                }
                assert(error_views(validation_errors@).to_set() =~= e3 + arguments_errors(sub, d));
                i = i + 1;
            }
            assert(args@.subrange(0, i as int) =~= args@);
        },
        None => {
            assert(crate::test_id::texts_of(arguments@) =~= Seq::<Seq<char>>::empty());
            assert(e3 =~= e3 + optional_arguments_errors(c.program_arguments, d));
        },
    }
    let ghost e4 = error_views(validation_errors@).to_set();

    let stdin = read_from_config_value(&mut validation_errors, toml_config.stdin, data);
    let expected_stdout = read_from_config_value(
        &mut validation_errors,
        toml_config.expected_stdout,
        data,
    );
    let expected_stderr = read_from_config_value(
        &mut validation_errors,
        toml_config.expected_stderr,
        data,
    );
    let expected_exit_code = read_number_from_config_value(
        &mut validation_errors,
        toml_config.expected_exit_code,
        data,
    );
    assert(error_views(validation_errors@).to_set() =~= leaf_errors(c, d, program_path));
    proof {
        lemma_empty_to_set(error_views(validation_errors@));
    }

    let test_case = if validation_errors.len() == 0 {
        match program_path.get_resolved_path() {
            Some(program) => Ok(
                TestCase {
                    source_file,
                    id,
                    description,
                    program,
                    arguments,
                    stdin,
                    expected_stdout,
                    expected_stderr,
                    expected_exit_code,
                },
            ),
            None => {
                assert(leaf_errors(c, d, program_path).contains(
                    match program_path {
                        ProgramPath::NotSpecified => ValidationErrorView::ProgramRequired,
                        ProgramPath::MissingProgram { requested_path } => ValidationErrorView::ProgramNotFound(requested_path@),
                        _ => ValidationErrorView::ProgramRequired,
                    },
                ));
                Err(validation_errors)
            },
        }
    } else {
        Err(validation_errors)
    };

    TestDetails { requirements, program_path, test_case }
}

/// Validates one leaf of the document `source_file`, looking its program up
/// next to the document and then on the search path. Where the program is
/// found depends on the disk; everything else is decided by the arguments.
pub fn build_test_details(
    toml_config: TomlConfig,
    source_file: String,
    id: TestId,
    data: &TomlConfigData,
) -> (r: TestDetails)
    ensures
        details_fit(toml_config, source_file@, id@, data@, r),
        program_path_fits(requested_program(toml_config, data@), r.program_path),
{
    let current_dir = file::parent_dir(source_file.as_str());
    let mut scratch: Vec<TestCaseValidationError> = Vec::new();
    assert(error_views(scratch@) =~= Seq::<ValidationErrorView>::empty());
    let requested = match read_from_config_value(
        &mut scratch,
        clone_text_field(&toml_config.program),
        data,
    ) {
        Some(p) => p,
        None => String::new(),
    };
    let program_path = get_program_path(requested, current_dir.as_str());
    test_details_with_program(toml_config, source_file, id, data, program_path)
}

/// A document resolved: the data read for it and the outcome of each leaf.
pub struct ParsedTomlConfig {
    pub data: TomlConfigData,
    pub tests: Vec<(TestId, TestDetails)>,
}

/// Validates every leaf of the document `source_file` against one data set.
pub fn resolve_leaves(
    source_file: &String,
    leaves: Vec<(TestId, TomlConfig)>,
    data: TomlConfigData,
) -> (r: ParsedTomlConfig)
    ensures
        r.data@ == data@,
        r.tests@.len() == leaves@.len(),
        forall|i: int|
            0 <= i < leaves@.len() ==> (#[trigger] r.tests@[i]).0@ == leaves@[i].0@ && details_fit(
                leaves@[i].1,
                source_file@,
                leaves@[i].0@,
                data@,
                r.tests@[i].1,
            ),
{
    let ghost all = leaves@;
    let mut leaves = leaves;
    let n = leaves.len();
    let mut tests: Vec<(TestId, TestDetails)> = Vec::new();
    let mut i: usize = 0;
    while i < n
        invariant
            n == all.len(),
            i <= n,
            leaves@ == all.subrange(i as int, n as int),
            tests@.len() == i,
            forall|j: int|
                0 <= j < i ==> (#[trigger] tests@[j]).0@ == all[j].0@ && details_fit(
                    all[j].1,
                    source_file@,
                    all[j].0@,
                    data@,
                    tests@[j].1,
                ),
        decreases n - i,
    {
        assert(leaves@[0] == all[i as int]);
        let (id, config) = leaves.remove(0);
        assert(leaves@ =~= all.subrange(i + 1, n as int));
        let key = id.clone();
        let details = build_test_details(config, source_file.clone(), id, &data);
        tests.push((key, details));
        i = i + 1;
    }
    ParsedTomlConfig { data, tests }
}

/// The leaves of a document sorted into test cases and failed validations.
pub struct TestCases {
    pub requirements: TomlConfigData,
    pub validation_errors: Vec<(TestId, Vec<TestCaseValidationError>)>,
    pub test_cases: Vec<TestCase>,
}

/// The test cases of the leaves that passed validation, in order.
pub open spec fn valid_cases(s: Seq<(TestId, TestDetails)>) -> Seq<TestCase>
    decreases s.len(),
{
    if s.len() == 0 {
        Seq::empty()
    } else {
        let init = valid_cases(s.drop_last());
        match s.last().1.test_case {
            Ok(tc) => init.push(tc),
            Err(_) => init,
        }
    }
}

/// The leaves that failed validation, with their errors, in order.
pub open spec fn invalid_leaves(s: Seq<(TestId, TestDetails)>) -> Seq<
    (TestId, Vec<TestCaseValidationError>),
>
    decreases s.len(),
{
    if s.len() == 0 {
        Seq::empty()
    } else {
        let init = invalid_leaves(s.drop_last());
        match s.last().1.test_case {
            Ok(_) => init,
            Err(errors) => init.push((s.last().0, errors)),
        }
    }
}

/// Sorts the leaves of a resolved document; neither side is dropped, so a
/// document can succeed in part.
pub fn test_cases_of(config: ParsedTomlConfig) -> (r: TestCases)
    ensures
        r.requirements@ == config.data@,
        r.test_cases@ == valid_cases(config.tests@),
        r.validation_errors@ == invalid_leaves(config.tests@),
{
    let ghost all = config.tests@;
    let ParsedTomlConfig { data, tests } = config;
    let mut tests = tests;
    let n = tests.len();
    let mut test_cases: Vec<TestCase> = Vec::new();
    let mut validation_errors: Vec<(TestId, Vec<TestCaseValidationError>)> = Vec::new();
    let mut i: usize = 0;
    while i < n
        invariant
            n == all.len(),
            i <= n,
            tests@ == all.subrange(i as int, n as int),
            test_cases@ == valid_cases(all.subrange(0, i as int)),
            validation_errors@ == invalid_leaves(all.subrange(0, i as int)),
        decreases n - i,
    {
        assert(tests@[0] == all[i as int]);
        assert(all.subrange(0, i + 1).drop_last() =~= all.subrange(0, i as int));
        let (id, details) = tests.remove(0);
        assert(tests@ =~= all.subrange(i + 1, n as int));
        match details.test_case {
            Ok(test_case) => test_cases.push(test_case),
            Err(errors) => validation_errors.push((id, errors)),
        }
        i = i + 1;
    }
    assert(all.subrange(0, n as int) =~= all);
    TestCases { requirements: data, validation_errors, test_cases }
}

/// Whether some leaf of a resolved document failed validation.
pub fn any_issues_in_toml_config(config: &ParsedTomlConfig) -> (r: bool)
    ensures
        r == exists|i: int|
            0 <= i < config.tests@.len() && (#[trigger] config.tests@[i]).1.test_case is Err,
{
    let mut i: usize = 0;
    while i < config.tests.len()
        invariant
            i <= config.tests@.len(),
            forall|j: int| 0 <= j < i ==> (#[trigger] config.tests@[j]).1.test_case is Ok,
        decreases config.tests@.len() - i,
    {
        if config.tests[i].1.test_case.is_err() {
            return true;
        }
        i = i + 1;
    }
    false
}

/// The message that reports a validation error.
pub open spec fn validation_message(e: ValidationErrorView) -> Seq<char> {
    match e {
        ValidationErrorView::MissingExternalFile(p) => "Missing external file '"@ + p + "'"@,
        ValidationErrorView::MissingEnvVar(n) => "Missing environment variable '"@ + n + "'"@,
        ValidationErrorView::FailedToParseString => "Failed to parse string"@,
        ValidationErrorView::ProgramRequired => "The field 'program' is required"@,
        ValidationErrorView::ProgramNotFound(p) => "The program '"@ + p + "' was not found"@,
        ValidationErrorView::ExpectationRequired => "At least one expectation is required"@,
    }
}

pub fn show_validation_error(validation_error: &TestCaseValidationError) -> (r: String)
    ensures
        r@ == validation_message(validation_error@),
{
    match validation_error {
        TestCaseValidationError::MissingExternalFile(file_path) => {
            let mut out = String::from_str("Missing external file '");
            out.append(file_path.as_str());
            out.append("'");
            out
        },
        TestCaseValidationError::MissingEnvVar(var_name) => {
            let mut out = String::from_str("Missing environment variable '");
            out.append(var_name.as_str());
            out.append("'");
            out
        },
        TestCaseValidationError::FailedToParseString => String::from_str("Failed to parse string"),
        TestCaseValidationError::ProgramRequired => String::from_str(
            "The field 'program' is required",
        ),
        TestCaseValidationError::ProgramNotFound(program) => {
            let mut out = String::from_str("The program '");
            out.append(program.as_str());
            out.append("' was not found");
            out
        },
        TestCaseValidationError::ExpectationRequired => String::from_str(
            "At least one expectation is required",
        ),
    }
}

} // verus!
