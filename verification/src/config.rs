//! The configuration model of the site builder: localized README pages,
//! extra assets and optional report copies, and the defaults that apply
//! when a configuration leaves them out.

use vstd::prelude::*;

use crate::path::join;
use crate::path::joined;
use crate::text::to_chars;

verus! {

// ---------------------------------------------------------------------------
// Key order
// ---------------------------------------------------------------------------

/// The order of keys: lexicographic by character. UTF-8 keeps the order of
/// code points, so this is the byte order by which `String` compares.
pub open spec fn key_less(a: Seq<char>, b: Seq<char>) -> bool
    decreases a.len(),
{
    if a.len() == 0 {
        b.len() > 0
    } else if b.len() == 0 {
        false
    } else if a[0] != b[0] {
        a[0] < b[0]
    } else {
        key_less(a.drop_first(), b.drop_first())
    }
}

/// No key is less than itself.
pub proof fn lemma_key_less_irreflexive(a: Seq<char>)
    ensures
        !key_less(a, a),
    decreases a.len(),
{
    if a.len() > 0 {
        lemma_key_less_irreflexive(a.drop_first());
    }
}

/// The key order is transitive.
pub proof fn lemma_key_less_transitive(a: Seq<char>, b: Seq<char>, c: Seq<char>)
    requires
        key_less(a, b),
        key_less(b, c),
    ensures
        key_less(a, c),
    decreases a.len(),
{
    if a.len() > 0 && b.len() > 0 && c.len() > 0 && a[0] == b[0] && b[0] == c[0] {
        lemma_key_less_transitive(a.drop_first(), b.drop_first(), c.drop_first());
    }
}

/// Of two different keys, one is less than the other.
pub proof fn lemma_key_less_total(a: Seq<char>, b: Seq<char>)
    requires
        a != b,
    ensures
        key_less(a, b) || key_less(b, a),
    decreases a.len(),
{
    if a.len() == 0 && b.len() == 0 {
        assert(a =~= b);
    }
    if a.len() > 0 && b.len() > 0 && a[0] == b[0] {
        if a.drop_first() == b.drop_first() {
            assert(a == seq![a[0]] + a.drop_first());
            assert(b == seq![b[0]] + b.drop_first());
        }
        lemma_key_less_total(a.drop_first(), b.drop_first());
    }
}

/// `a` comes before `b` in the lexicographic order of strings: they agree
/// on their first `i` characters, and then either `a` ends where `b` goes
/// on, or the character of `a` at `i` is the smaller.
pub open spec fn differ_first_at(a: Seq<char>, b: Seq<char>, i: int) -> bool {
    &&& 0 <= i <= a.len()
    &&& i <= b.len()
    &&& a.take(i) == b.take(i)
    &&& ((i == a.len() && i < b.len()) || (i < a.len() && i < b.len() && a[i] < b[i]))
}

/// The key order is the lexicographic order of strings, as `String`'s
/// order (and so `BTreeMap`'s) is: `a` is less than `b` exactly when, at the
/// first place where they differ, `a` has ended or has the smaller
/// character. Length alone never decides.
pub proof fn lemma_key_less_lexicographic(a: Seq<char>, b: Seq<char>)
    ensures
        key_less(a, b) <==> exists|i: int| differ_first_at(a, b, i),
    decreases a.len(),
{
    if key_less(a, b) {
        if a.len() == 0 || a[0] != b[0] {
            assert(a.take(0) =~= b.take(0));
            assert(differ_first_at(a, b, 0));
        } else {
            lemma_key_less_lexicographic(a.drop_first(), b.drop_first());
            let j = choose|j: int| differ_first_at(a.drop_first(), b.drop_first(), j);
            assert(a.take(j + 1) =~= seq![a[0]] + a.drop_first().take(j));
            assert(b.take(j + 1) =~= seq![b[0]] + b.drop_first().take(j));
            assert(differ_first_at(a, b, j + 1));
        }
    }
    if exists|i: int| differ_first_at(a, b, i) {
        let i = choose|i: int| differ_first_at(a, b, i);
        if i > 0 {
            assert(a[0] == a.take(i)[0] && b[0] == b.take(i)[0]);
            let (x, y) = (a.drop_first(), b.drop_first());
            assert(x.take(i - 1) =~= a.take(i).drop_first());
            assert(y.take(i - 1) =~= b.take(i).drop_first());
            assert(differ_first_at(x, y, i - 1));
            lemma_key_less_lexicographic(x, y);
        }
    }
}

/// A key comes before every longer key that it starts, and before every key
/// whose first character is greater, however short that key is.
pub proof fn lemma_key_less_examples(a: Seq<char>, b: Seq<char>, rest: Seq<char>)
    ensures
        rest.len() > 0 ==> key_less(a, a + rest),
        a.len() > 0 && b.len() > 0 && a[0] < b[0] ==> key_less(a, b),
{
    lemma_key_less_lexicographic(a, a + rest);
    if rest.len() > 0 {
        assert((a + rest).take(a.len() as int) =~= a.take(a.len() as int));
        assert(differ_first_at(a, a + rest, a.len() as int));
    }
    lemma_key_less_lexicographic(a, b);
    if a.len() > 0 && b.len() > 0 && a[0] < b[0] {
        assert(a.take(0) =~= b.take(0));
        assert(differ_first_at(a, b, 0));
    }
}

/// The result of comparing two keys.
#[derive(Clone, Copy, Debug, PartialEq, Eq, Structural)]
pub enum KeyOrder {
    Less,
    Equal,
    Greater,
}

/// Compares `a` with `b` in the key order.
pub fn compare_keys(a: &str, b: &str) -> (order: KeyOrder)
    ensures
        order == KeyOrder::Less <==> key_less(a@, b@),
        order == KeyOrder::Equal <==> a@ == b@,
        order == KeyOrder::Greater <==> key_less(b@, a@),
{
    let x = to_chars(a);
    let y = to_chars(b);
    let mut i: usize = 0;
    assert(x@.skip(0) == x@ && y@.skip(0) == y@);
    while i < x.len() && i < y.len() && x[i] == y[i]
        invariant
            i <= x@.len(),
            i <= y@.len(),
            x@.subrange(0, i as int) == y@.subrange(0, i as int),
            key_less(x@, y@) == key_less(x@.skip(i as int), y@.skip(i as int)),
            key_less(y@, x@) == key_less(y@.skip(i as int), x@.skip(i as int)),
        decreases x@.len() - i,
    {
        assert(x@.skip(i as int).drop_first() == x@.skip(i + 1));
        assert(y@.skip(i as int).drop_first() == y@.skip(i + 1));
        assert(x@.subrange(0, i + 1) == x@.subrange(0, i as int).push(x@[i as int]));
        assert(y@.subrange(0, i + 1) == y@.subrange(0, i as int).push(y@[i as int]));
        i += 1;
    }
    proof {
        lemma_key_less_irreflexive(x@);
    }
    if i == x.len() && i == y.len() {
        assert(x@ == x@.subrange(0, i as int));
        assert(y@ == y@.subrange(0, i as int));
        KeyOrder::Equal
    } else if i == x.len() {
        assert(x@.skip(i as int).len() == 0);
        assert(x@.len() != y@.len());
        KeyOrder::Less
    } else if i == y.len() {
        assert(y@.skip(i as int).len() == 0);
        assert(x@.len() != y@.len());
        KeyOrder::Greater
    } else {
        assert(x@.skip(i as int)[0] == x@[i as int]);
        assert(y@.skip(i as int)[0] == y@[i as int]);
        assert(x@ != y@) by {
            if x@ == y@ {
                assert(x@[i as int] == y@[i as int]);
            }
        }
        if x[i] < y[i] {
            KeyOrder::Less
        } else {
            KeyOrder::Greater
        }
    }
}

// ---------------------------------------------------------------------------
// Languages
// ---------------------------------------------------------------------------

/// The view of a [`Language`].
pub struct LanguageView {
    pub readme: Seq<char>,
    pub output: Seq<char>,
    pub label: Seq<char>,
}

/// Describes one localized README page.
pub struct Language {
    /// Identifies the project-relative README source path.
    pub readme: String,
    /// Identifies the output path relative to the generated site.
    pub output: String,
    /// Provides the human-readable language label shown in navigation.
    pub label: String,
}

impl View for Language {
    type V = LanguageView;

    open spec fn view(&self) -> LanguageView {
        LanguageView { readme: self.readme@, output: self.output@, label: self.label@ }
    }
}

/// Keys in strictly ascending order, so that none occurs twice.
pub open spec fn sorted_keys(s: Seq<(Seq<char>, LanguageView)>) -> bool {
    forall|i: int, j: int| 0 <= i < j < s.len() ==> key_less(#[trigger] s[i].0, #[trigger] s[j].0)
}

/// `s` with `value` stored under `key` (`BTreeMap::insert` on a sorted
/// sequence): the entry of `key` is replaced where there is one, else a new
/// entry goes before the first greater key.
pub open spec fn inserted(
    s: Seq<(Seq<char>, LanguageView)>,
    key: Seq<char>,
    value: LanguageView,
) -> Seq<(Seq<char>, LanguageView)>
    decreases s.len(),
{
    if s.len() == 0 {
        seq![(key, value)]
    } else if s[0].0 == key {
        seq![(key, value)] + s.drop_first()
    } else if key_less(key, s[0].0) {
        seq![(key, value)] + s
    } else {
        seq![s[0]] + inserted(s.drop_first(), key, value)
    }
}

/// The value stored under `key` in `s`, if any.
pub open spec fn lookup(s: Seq<(Seq<char>, LanguageView)>, key: Seq<char>) -> Option<LanguageView>
    decreases s.len(),
{
    if s.len() == 0 {
        None
    } else if s[0].0 == key {
        Some(s[0].1)
    } else {
        lookup(s.drop_first(), key)
    }
}

/// Below position `i` every key is less than `key`: `inserted` keeps that
/// prefix.
proof fn lemma_inserted_prefix(
    s: Seq<(Seq<char>, LanguageView)>,
    key: Seq<char>,
    value: LanguageView,
    i: int,
)
    requires
        0 <= i <= s.len(),
        forall|j: int| 0 <= j < i ==> key_less(#[trigger] s[j].0, key),
    ensures
        inserted(s, key, value) == s.take(i) + inserted(s.skip(i), key, value),
    decreases i,
{
    if i == 0 {
        assert(s.skip(0) == s);
        assert(s.take(0) + inserted(s, key, value) == inserted(s, key, value));
    } else {
        lemma_key_less_irreflexive(key);
        if key_less(key, s[0].0) {
            lemma_key_less_transitive(key, s[0].0, key);
        }
        let t = s.drop_first();
        assert forall|j: int| 0 <= j < i - 1 implies key_less(#[trigger] t[j].0, key) by {
            assert(t[j] == s[j + 1]);
        }
        lemma_inserted_prefix(t, key, value, i - 1);
        assert(t.skip(i - 1) == s.skip(i));
        assert(seq![s[0]] + t.take(i - 1) == s.take(i));
        assert(seq![s[0]] + (t.take(i - 1) + inserted(t.skip(i - 1), key, value)) == s.take(i)
            + inserted(s.skip(i), key, value));
    }
}

/// The views of the entries `v`.
pub open spec fn entries_view(v: Seq<(String, Language)>) -> Seq<(Seq<char>, LanguageView)> {
    Seq::new(v.len(), |i: int| (v[i].0@, v[i].1@))
}

/// Every key of `t` is greater than `x`.
pub open spec fn keys_above(x: Seq<char>, t: Seq<(Seq<char>, LanguageView)>) -> bool {
    forall|j: int| 0 <= j < t.len() ==> key_less(x, #[trigger] t[j].0)
}

proof fn lemma_inserted_keys_above(
    x: Seq<char>,
    s: Seq<(Seq<char>, LanguageView)>,
    key: Seq<char>,
    value: LanguageView,
)
    requires
        keys_above(x, s),
        key_less(x, key),
    ensures
        keys_above(x, inserted(s, key, value)),
    decreases s.len(),
{
    let r = inserted(s, key, value);
    if s.len() == 0 {
    } else if s[0].0 == key {
        assert forall|j: int| 0 <= j < r.len() implies key_less(x, #[trigger] r[j].0) by {
            if j > 0 {
                assert(r[j] == s[j]);
            }
        }
    } else if key_less(key, s[0].0) {
        assert forall|j: int| 0 <= j < r.len() implies key_less(x, #[trigger] r[j].0) by {
            if j > 0 {
                assert(r[j] == s[j - 1]);
            }
        }
    } else {
        let t = s.drop_first();
        assert forall|j: int| 0 <= j < t.len() implies key_less(x, #[trigger] t[j].0) by {
            assert(t[j] == s[j + 1]);
        }
        lemma_inserted_keys_above(x, t, key, value);
        let rt = inserted(t, key, value);
        assert forall|j: int| 0 <= j < r.len() implies key_less(x, #[trigger] r[j].0) by {
            if j > 0 {
                assert(r[j] == rt[j - 1]);
            } else {
                assert(r[0] == s[0]);
            }
        }
    }
}

/// Inserting keeps the keys in strictly ascending order, so that no
/// identifier ever occurs twice.
pub proof fn lemma_inserted_sorted(
    s: Seq<(Seq<char>, LanguageView)>,
    key: Seq<char>,
    value: LanguageView,
)
    requires
        sorted_keys(s),
    ensures
        sorted_keys(inserted(s, key, value)),
    decreases s.len(),
{
    let r = inserted(s, key, value);
    if s.len() == 0 {
    } else if s[0].0 == key {
        assert forall|i: int, j: int| 0 <= i < j < r.len() implies key_less(
            #[trigger] r[i].0,
            #[trigger] r[j].0,
        ) by {
            assert(r[i].0 == s[i].0);
            assert(r[j].0 == s[j].0);
        }
    } else if key_less(key, s[0].0) {
        assert forall|i: int, j: int| 0 <= i < j < r.len() implies key_less(
            #[trigger] r[i].0,
            #[trigger] r[j].0,
        ) by {
            assert(r[j] == s[j - 1]);
            if i == 0 {
                if j > 1 {
                    lemma_key_less_transitive(key, s[0].0, s[j - 1].0);
                }
            } else {
                assert(r[i] == s[i - 1]);
            }
        }
    } else {
        let t = s.drop_first();
        assert(sorted_keys(t)) by {
            assert forall|i: int, j: int| 0 <= i < j < t.len() implies key_less(
                #[trigger] t[i].0,
                #[trigger] t[j].0,
            ) by {
                assert(t[i] == s[i + 1]);
                assert(t[j] == s[j + 1]);
            }
        }
        lemma_inserted_sorted(t, key, value);
        lemma_key_less_total(key, s[0].0);
        assert forall|j: int| 0 <= j < t.len() implies key_less(s[0].0, #[trigger] t[j].0) by {
            assert(t[j] == s[j + 1]);
        }
        lemma_inserted_keys_above(s[0].0, t, key, value);
        let rt = inserted(t, key, value);
        assert forall|i: int, j: int| 0 <= i < j < r.len() implies key_less(
            #[trigger] r[i].0,
            #[trigger] r[j].0,
        ) by {
            assert(r[j] == rt[j - 1]);
            if i > 0 {
                assert(r[i] == rt[i - 1]);
            } else {
                assert(r[0] == s[0]);
            }
        }
    }
}

/// A map from language identifiers to their README page definitions,
/// walked in ascending order of identifier.
pub struct LanguageMap {
    entries: Vec<(String, Language)>,
}

impl View for LanguageMap {
    type V = Seq<(Seq<char>, LanguageView)>;

    closed spec fn view(&self) -> Seq<(Seq<char>, LanguageView)> {
        entries_view(self.entries@)
    }
}

impl LanguageMap {
    #[verifier::type_invariant]
    spec fn keys_ascend(self) -> bool {
        sorted_keys(self@)
    }

    /// An empty map.
    pub fn new() -> (map: LanguageMap)
        ensures
            map@ == Seq::<(Seq<char>, LanguageView)>::empty(),
    {
        let map = LanguageMap { entries: Vec::new() };
        assert(map@ =~= Seq::<(Seq<char>, LanguageView)>::empty());
        map
    }

    /// The number of languages.
    pub fn len(&self) -> (n: usize)
        ensures
            n == self@.len(),
    {
        self.entries.len()
    }

    /// Whether the map is empty.
    pub fn is_empty(&self) -> (empty: bool)
        ensures
            empty == (self@.len() == 0),
    {
        self.entries.len() == 0
    }

    /// The identifier of the `i`-th language in key order.
    pub fn key(&self, i: usize) -> (key: &String)
        requires
            i < self@.len(),
        ensures
            key@ == self@[i as int].0,
    {
        &self.entries[i].0
    }

    /// The definition of the `i`-th language in key order.
    pub fn language(&self, i: usize) -> (language: &Language)
        requires
            i < self@.len(),
        ensures
            language@ == self@[i as int].1,
    {
        &self.entries[i].1
    }

    /// Stores `language` under `id`, replacing what was stored there.
    pub fn insert(&mut self, id: String, language: Language)
        ensures
            final(self)@ == inserted(old(self)@, id@, language@),
            sorted_keys(final(self)@),
    {
        proof {
            use_type_invariant(&*self);
            lemma_inserted_sorted(self@, id@, language@);
        }
        let ghost s = self@;
        let ghost k = id@;
        let ghost v = language@;
        let mut entries: Vec<(String, Language)> = Vec::new();
        std::mem::swap(&mut entries, &mut self.entries);
        assert(self@ =~= Seq::<(Seq<char>, LanguageView)>::empty());
        assert(entries_view(entries@) == s);
        let n = entries.len();
        let mut i: usize = 0;
        let mut found_equal = false;
        let mut found_greater = false;
        while i < n
            invariant_except_break
                !found_equal && !found_greater,
            invariant
                n == entries@.len() == s.len(),
                k == id@,
                entries_view(entries@) == s,
                sorted_keys(s),
                i <= n,
                forall|j: int| 0 <= j < i ==> key_less(#[trigger] s[j].0, k),
                found_equal ==> i < n && s[i as int].0 == k,
                found_greater ==> i < n && key_less(k, s[i as int].0),
                !(found_equal && found_greater),
            ensures
                found_equal || found_greater || i == n,
            decreases n - i,
        {
            assert(s[i as int].0 == entries@[i as int].0@);
            match compare_keys(id.as_str(), entries[i].0.as_str()) {
                KeyOrder::Less => {
                    found_greater = true;
                    break ;
                },
                KeyOrder::Equal => {
                    found_equal = true;
                    break ;
                },
                KeyOrder::Greater => {
                    i += 1;
                },
            }
        }
        proof {
            lemma_inserted_prefix(s, k, v, i as int);
            lemma_key_less_irreflexive(k);
        }
        if found_equal {
            assert(s.skip(i as int)[0] == s[i as int]);
            assert(s.skip(i as int).drop_first() == s.skip(i + 1));
            entries.set(i, (id, language));
            assert(entries_view(entries@) =~= s.take(i as int) + seq![(k, v)] + s.skip(
                i + 1,
            ));
        } else if found_greater {
            assert(s.skip(i as int)[0] == s[i as int]);
            entries.insert(i, (id, language));
            assert(entries_view(entries@) =~= s.take(i as int) + (seq![(k, v)] + s.skip(
                i as int,
            )));
            assert forall|a: int, b: int|
                0 <= a < b < entries@.len() implies key_less(
                #[trigger] entries_view(entries@)[a].0,
                #[trigger] entries_view(entries@)[b].0,
            ) by {
                let t = entries_view(entries@);
                if a < i && b == i {
                } else if a == i && b > i {
                    assert(t[b] == s[b - 1]);
                    if b - 1 > i {
                        lemma_key_less_transitive(k, s[i as int].0, s[b - 1].0);
                    }
                } else if a < i && b > i {
                    assert(t[b] == s[b - 1]);
                } else if a > i {
                    assert(t[a] == s[a - 1]);
                    assert(t[b] == s[b - 1]);
                }
            }
        } else {
            assert(s.skip(n as int) =~= Seq::<(Seq<char>, LanguageView)>::empty());
            entries.push((id, language));
            assert(entries_view(entries@) =~= s.take(n as int) + seq![(k, v)]);
        }
        assert(entries_view(entries@) == inserted(s, k, v));
        self.entries = entries;
    }
}

/// A read after a write: the value stored under `key` by an insert is what
/// a lookup of `key` then gives, and every other key keeps its value.
pub proof fn lemma_lookup_inserted(
    s: Seq<(Seq<char>, LanguageView)>,
    key: Seq<char>,
    value: LanguageView,
    other: Seq<char>,
)
    ensures
        lookup(inserted(s, key, value), key) == Some(value),
        other != key ==> lookup(inserted(s, key, value), other) == lookup(s, other),
    decreases s.len(),
{
    let r = inserted(s, key, value);
    if s.len() == 0 {
        assert(r.drop_first() == s);
    } else if s[0].0 == key {
        assert(r[0] == (key, value));
        assert(r.drop_first() == s.drop_first());
    } else if key_less(key, s[0].0) {
        assert(r[0] == (key, value));
        assert(r.drop_first() == s);
    } else {
        lemma_lookup_inserted(s.drop_first(), key, value, other);
        assert(r[0] == s[0]);
        assert(r.drop_first() == inserted(s.drop_first(), key, value));
    }
}

// ---------------------------------------------------------------------------
// Configuration
// ---------------------------------------------------------------------------

/// Describes one optional source-to-output copy operation.
pub struct CopyConfig {
    /// Identifies the project-relative source path.
    pub source: String,
    /// Identifies the output-relative destination path.
    pub output: String,
}

/// Stores optional site-wide settings and language-specific page
/// definitions.
pub struct Config {
    /// Overrides the language name used as the generated site title.
    pub site_title: Option<String>,
    /// Identifies the language whose README is required.
    pub default_language: String,
    /// Maps language identifiers to their README and output definitions.
    pub languages: LanguageMap,
    /// Lists additional project-relative assets to copy.
    pub assets: Vec<String>,
    /// Defines an optional coverage report copy operation.
    pub coverage: Option<CopyConfig>,
    /// Defines an optional coverage badge copy operation.
    pub coverage_badge: Option<CopyConfig>,
    /// Defines an optional metadata copy operation.
    pub metadata: Option<CopyConfig>,
}

/// The configuration with every setting left out.
pub open spec fn is_empty_config(c: Config) -> bool {
    &&& c.site_title is None
    &&& c.default_language@.len() == 0
    &&& c.languages@.len() == 0
    &&& c.assets@.len() == 0
    &&& c.coverage is None
    &&& c.coverage_badge is None
    &&& c.metadata is None
}

impl Default for Config {
    fn default() -> (config: Config)
        ensures
            is_empty_config(config),
    {
        Config {
            site_title: None,
            default_language: String::new(),
            languages: LanguageMap::new(),
            assets: Vec::new(),
            coverage: None,
            coverage_badge: None,
            metadata: None,
        }
    }
}

/// The pages defined when a configuration defines none: English from
/// `README.md` at the site root, and Chinese from `README.zh_CN.md` under
/// `zh_CN/`.
pub open spec fn default_languages() -> Seq<(Seq<char>, LanguageView)> {
    seq![
        ("en"@, LanguageView { readme: "README.md"@, output: "index.html"@, label: "English"@ }),
        ("zh_CN"@, LanguageView {
            readme: "README.zh_CN.md"@,
            output: "zh_CN/index.html"@,
            label: "\u{4e2d}\u{6587}"@,
        }),
    ]
}

/// The languages of a completed configuration.
pub open spec fn completed_languages(
    languages: Seq<(Seq<char>, LanguageView)>,
) -> Seq<(Seq<char>, LanguageView)> {
    if languages.len() == 0 {
        default_languages()
    } else {
        languages
    }
}

/// The default language of a completed configuration.
pub open spec fn completed_default_language(default_language: Seq<char>) -> Seq<char> {
    if default_language.len() == 0 {
        "en"@
    } else {
        default_language
    }
}

/// Completing a configuration twice changes nothing more than completing it
/// once, and a completed configuration always defines a language and a
/// default language.
pub proof fn lemma_completion_idempotent(
    languages: Seq<(Seq<char>, LanguageView)>,
    default_language: Seq<char>,
)
    ensures
        completed_languages(completed_languages(languages)) == completed_languages(languages),
        completed_default_language(completed_default_language(default_language))
            == completed_default_language(default_language),
        completed_languages(languages).len() > 0,
        completed_default_language(default_language).len() > 0,
{
    reveal_strlit("en");
}

/// The configuration files that are looked for, the first one found taking
/// precedence: `.infra/ci/pages.json`, then the legacy `.rs-ci-page.json`.
pub fn config_candidates(project: &str) -> (paths: Vec<String>)
    ensures
        paths@.len() == 2,
        paths@[0]@ == joined(project@, ".infra/ci/pages.json"@),
        paths@[1]@ == joined(project@, ".rs-ci-page.json"@),
{
    let mut paths: Vec<String> = Vec::new();
    paths.push(join(project, ".infra/ci/pages.json"));
    paths.push(join(project, ".rs-ci-page.json"));
    paths
}

/// Completes the configuration read from the first configuration file
/// found: with no languages, English and optional Chinese README
/// definitions are supplied, and an empty default language becomes `en`.
/// With no configuration file (`None`) the configuration is the empty one,
/// completed the same way.
pub fn load(parsed: Option<Config>) -> (config: Config)
    ensures
        config.languages@ == completed_languages(
            match parsed {
                Some(p) => p.languages@,
                None => Seq::empty(),
            },
        ),
        config.default_language@ == completed_default_language(
            match parsed {
                Some(p) => p.default_language@,
                None => Seq::empty(),
            },
        ),
        match parsed {
            Some(p) => {
                &&& config.site_title == p.site_title
                &&& config.assets == p.assets
                &&& config.coverage == p.coverage
                &&& config.coverage_badge == p.coverage_badge
                &&& config.metadata == p.metadata
            },
            None => {
                &&& config.site_title is None
                &&& config.assets@.len() == 0
                &&& config.coverage is None
                &&& config.coverage_badge is None
                &&& config.metadata is None
            },
        },
{
    let mut config = match parsed {
        Some(p) => p,
        None => Config::default(),
    };
    if config.languages.is_empty() {
        let english = Language {
            readme: "README.md".to_owned(),
            output: "index.html".to_owned(),
            label: "English".to_owned(),
        };
        let chinese = Language {
            readme: "README.zh_CN.md".to_owned(),
            output: "zh_CN/index.html".to_owned(),
            label: "\u{4e2d}\u{6587}".to_owned(),
        };
        let ghost en = default_languages()[0];
        let ghost zh = default_languages()[1];
        assert(english@ == en.1 && chinese@ == zh.1);
        config.languages.insert("en".to_owned(), english);
        assert(config.languages@ =~= seq![en]);
        proof {
            reveal_strlit("en");
            reveal_strlit("zh_CN");
            assert(key_less("en"@, "zh_CN"@));
            assert("en"@ != "zh_CN"@) by {
                assert("en"@.len() != "zh_CN"@.len());
            }
            if key_less("zh_CN"@, "en"@) {
                lemma_key_less_transitive("en"@, "zh_CN"@, "en"@);
                lemma_key_less_irreflexive("en"@);
            }
        }
        let ghost one = config.languages@;
        config.languages.insert("zh_CN".to_owned(), chinese);
        assert(inserted(one.drop_first(), zh.0, zh.1) == seq![zh]);
        assert(config.languages@ =~= default_languages());
    }
    if config.default_language.as_str().is_empty() {
        config.default_language = "en".to_owned();
    }
    config
}

} // verus!
