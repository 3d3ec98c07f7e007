//! Build configuration: include patterns, output path rules and per-plugin options,
//! read from the `veltro` section of `build.yaml`.
use vstd::prelude::*;
use crate::ir::{
    StringMap, assoc_get, assoc_set, has_key, lemma_assoc_get_position, lemma_assoc_set_has_key, lemma_assoc_set_position,
};
use crate::path::{with_extension, with_extension_exec};
use crate::text::{ascii_lower, chars_of, is_ascii_text, owned, replace, replace_exec, seq_eq, string_of, str_lowercase, to_lowercase_str, views};
use crate::yaml::{parse_yaml, yaml_document, yaml_entries, yaml_get, yaml_items, yaml_str, YamlValue};

verus! {

// ───────────────────────────── the model ─────────────────────────────

/// A map from strings to string maps, as sequences of pairs.
pub type OptionsView = Seq<(Seq<char>, Seq<(Seq<char>, Seq<char>)>)>;

/// What a build configuration holds.
pub struct ConfigSpec {
    pub include_patterns: Seq<Seq<char>>,
    pub build_extensions: Seq<(Seq<char>, Seq<char>)>,
    pub plugin_options: OptionsView,
}

/// The include pattern used when none is configured.
pub open spec fn default_patterns() -> Seq<Seq<char>> {
    seq!["lib/**/*.dart"@]
}

/// The configuration used when `build.yaml` gives none.
pub open spec fn default_config() -> ConfigSpec {
    ConfigSpec { include_patterns: default_patterns(), build_extensions: seq![], plugin_options: seq![] }
}

/// The string items of a sequence, in order; other items are skipped.
pub open spec fn text_items(items: Seq<YamlValue>) -> Seq<Seq<char>>
    decreases items.len(),
{
    if items.len() == 0 {
        seq![]
    } else {
        let prev = text_items(items.drop_last());
        match yaml_str(items.last()) {
            Some(s) => prev.push(s),
            None => prev,
        }
    }
}

/// The entries of a mapping whose key and value are both strings, collected into a
/// map: a later entry with the same key replaces the value of an earlier one.
pub open spec fn text_pairs(entries: Seq<(YamlValue, YamlValue)>) -> Seq<(Seq<char>, Seq<char>)>
    decreases entries.len(),
{
    if entries.len() == 0 {
        seq![]
    } else {
        let prev = text_pairs(entries.drop_last());
        match (yaml_str(entries.last().0), yaml_str(entries.last().1)) {
            (Some(k), Some(v)) => assoc_set(prev, k, v),
            _ => prev,
        }
    }
}

/// The lowercase form of a text, as `str::to_lowercase` gives it: for ASCII text,
/// the text with each letter `A`..=`Z` lowercased.
pub open spec fn lowercase_of(s: Seq<char>) -> Seq<char> {
    if is_ascii_text(s) {
        s.map_values(|c: char| ascii_lower(c))
    } else {
        str_lowercase(s)
    }
}

/// The lowercased `annotation` string of a builder entry.
pub open spec fn builder_annotation(b: YamlValue) -> Option<Seq<char>> {
    match yaml_get(b, "annotation"@) {
        Some(a) => match yaml_str(a) {
            Some(s) => Some(lowercase_of(s)),
            None => None,
        },
        None => None,
    }
}

/// The string options of a builder entry (empty when it has no `options` mapping).
pub open spec fn builder_options(b: YamlValue) -> Seq<(Seq<char>, Seq<char>)> {
    match yaml_get(b, "options"@) {
        Some(o) => match yaml_entries(o) {
            Some(entries) => text_pairs(entries),
            None => seq![],
        },
        None => seq![],
    }
}

/// The options of every builder that names an annotation, keyed by that annotation;
/// a later builder for the same annotation replaces an earlier one.
pub open spec fn plugin_table(builders: Seq<YamlValue>) -> OptionsView
    decreases builders.len(),
{
    if builders.len() == 0 {
        seq![]
    } else {
        let prev = plugin_table(builders.drop_last());
        match builder_annotation(builders.last()) {
            Some(a) => assoc_set(prev, a, builder_options(builders.last())),
            None => prev,
        }
    }
}

/// The include patterns of a `veltro` section.
pub open spec fn section_patterns(section: YamlValue) -> Seq<Seq<char>> {
    match yaml_get(section, "generate_for"@) {
        Some(g) => match yaml_items(g) {
            Some(items) => text_items(items),
            None => default_patterns(),
        },
        None => default_patterns(),
    }
}

/// The output path rules of a `veltro` section.
pub open spec fn section_extensions(section: YamlValue) -> Seq<(Seq<char>, Seq<char>)> {
    match yaml_get(section, "build_extensions"@) {
        Some(m) => match yaml_entries(m) {
            Some(entries) => text_pairs(entries),
            None => seq![],
        },
        None => seq![],
    }
}

/// The plugin options of a `veltro` section.
pub open spec fn section_options(section: YamlValue) -> OptionsView {
    match yaml_get(section, "builders"@) {
        Some(b) => match yaml_items(b) {
            Some(items) => plugin_table(items),
            None => seq![],
        },
        None => seq![],
    }
}

/// The configuration that a parsed `build.yaml` document gives.
pub open spec fn config_of(doc: YamlValue) -> ConfigSpec {
    match yaml_get(doc, "veltro"@) {
        None => default_config(),
        Some(section) => ConfigSpec {
            include_patterns: section_patterns(section),
            build_extensions: section_extensions(section),
            plugin_options: section_options(section),
        },
    }
}

/// The options configured for an annotation, looked up by its lowercase name (none
/// when it has no builder).
pub open spec fn annotation_options(options: OptionsView, annotation: Seq<char>) -> Seq<(Seq<char>, Seq<char>)> {
    match assoc_get(options, lowercase_of(annotation)) {
        Some(m) => m,
        None => seq![],
    }
}

/// Option lookup ignores case: two annotation names with the same lowercase form
/// get the same options.
pub proof fn lemma_options_ignore_case(options: OptionsView, a: Seq<char>, b: Seq<char>)
    requires
        lowercase_of(a) == lowercase_of(b),
    ensures
        annotation_options(options, a) == annotation_options(options, b),
{
}

/// Text with no letter `A`..=`Z`, all of it ASCII.
pub open spec fn is_ascii_lowercase(s: Seq<char>) -> bool {
    is_ascii_text(s) && forall|i: int| 0 <= i < s.len() ==> !('A' <= #[trigger] s[i] && s[i] <= 'Z')
}

/// A key as the configuration stores it: the lowercase form of some annotation
/// name, with no uppercase letter when that name is ASCII.
pub open spec fn is_option_key(k: Seq<char>) -> bool {
    exists|a: Seq<char>| k == lowercase_of(a) && (is_ascii_text(a) ==> is_ascii_lowercase(k))
}

/// The lowercase form of ASCII text is ASCII and has no uppercase letter.
pub proof fn lemma_ascii_lowercase(a: Seq<char>)
    requires
        is_ascii_text(a),
    ensures
        is_ascii_lowercase(lowercase_of(a)),
        lowercase_of(lowercase_of(a)) == lowercase_of(a),
{
    let l = lowercase_of(a);
    assert forall|i: int| 0 <= i < l.len() implies #[trigger] l[i] < '\u{80}' && !('A' <= l[i] && l[i] <= 'Z') by {
        assert(l[i] == ascii_lower(a[i]));
        assert(a[i] < '\u{80}');
    }
    assert(is_ascii_text(l));
    assert(lowercase_of(l) =~= l) by {
        assert forall|i: int| 0 <= i < l.len() implies lowercase_of(l)[i] == l[i] by {
            assert(!('A' <= l[i] && l[i] <= 'Z'));
        }
    }
}

/// Every key of the options table built from builder entries is the lowercase form
/// of a builder's annotation name.
proof fn lemma_plugin_table_keys(builders: Seq<YamlValue>, k: Seq<char>)
    ensures
        has_key(plugin_table(builders), k) ==> is_option_key(k),
    decreases builders.len(),
{
    if builders.len() > 0 {
        let prev = plugin_table(builders.drop_last());
        lemma_plugin_table_keys(builders.drop_last(), k);
        match builder_annotation(builders.last()) {
            Some(a) => {
                lemma_assoc_set_has_key(prev, a, builder_options(builders.last()), k);
                if k == a {
                    let s = yaml_str(yaml_get(builders.last(), "annotation"@)->0)->0;
                    if is_ascii_text(s) {
                        lemma_ascii_lowercase(s);
                    }
                    assert(k == lowercase_of(s) && (is_ascii_text(s) ==> is_ascii_lowercase(k)));
                }
            },
            None => {},
        }
    }
}

/// Every key of the plugin options a document configures is the lowercase form of
/// an annotation name; for an ASCII name it has no uppercase letter.
pub proof fn lemma_option_keys_lowercase(doc: YamlValue, k: Seq<char>)
    ensures
        has_key(config_of(doc).plugin_options, k) ==> is_option_key(k),
{
    match yaml_get(doc, "veltro"@) {
        None => {},
        Some(section) => match yaml_get(section, "builders"@) {
            Some(b) => match yaml_items(b) {
                Some(items) => lemma_plugin_table_keys(items, k),
                None => {},
            },
            None => {},
        },
    }
}

// ───────────────────────────── per-plugin options ─────────────────────────────

/// Options of each plugin, keyed by annotation name, in insertion order.
#[derive(Debug)]
pub struct OptionsTable {
    entries: Vec<(String, StringMap)>,
}

pub open spec fn option_entry_view(p: (String, StringMap)) -> (Seq<char>, Seq<(Seq<char>, Seq<char>)>) {
    (p.0@, p.1@)
}

pub open spec fn option_entries_view(v: Seq<(String, StringMap)>) -> OptionsView {
    v.map_values(|p: (String, StringMap)| option_entry_view(p))
}

impl View for OptionsTable {
    type V = OptionsView;

    closed spec fn view(&self) -> OptionsView {
        option_entries_view(self.entries@)
    }
}

impl OptionsTable {
    /// An empty table.
    pub fn new() -> (r: Self)
        ensures
            r@ == OptionsView::empty(),
    {
        let r = OptionsTable { entries: Vec::new() };
        assert(r@ =~= OptionsView::empty());
        r
    }

    /// Number of entries.
    pub fn len(&self) -> (r: usize)
        ensures
            r == self@.len(),
    {
        self.entries.len()
    }

    /// Index of the first entry whose key is `key`.
    fn position(&self, key: &Vec<char>) -> (r: Option<usize>)
        ensures
            r matches Some(i) ==> i < self@.len() && self@[i as int].0 == key@ && forall|j: int|
                0 <= j < i ==> self@[j].0 != key@,
            r is None ==> forall|j: int| 0 <= j < self@.len() ==> self@[j].0 != key@,
    {
        let mut i: usize = 0;
        while i < self.entries.len()
            invariant
                i <= self.entries.len(),
                self@.len() == self.entries.len(),
                forall|j: int| 0 <= j < i ==> self@[j].0 != key@,
            decreases self.entries.len() - i,
        {
            let k = chars_of(self.entries[i].0.as_str());
            assert(self@[i as int] == option_entry_view(self.entries@[i as int]));
            if seq_eq(&k, key) {
                return Some(i);
            }
            i = i + 1;
        }
        None
    }

    /// The options bound to `key`, if any.
    pub fn get(&self, key: &str) -> (r: Option<&StringMap>)
        ensures
            r matches Some(m) ==> assoc_get(self@, key@) == Some(m@),
            r is None ==> assoc_get(self@, key@) is None,
    {
        let kv = chars_of(key);
        let p = self.position(&kv);
        proof {
            lemma_assoc_get_position(self@, key@);
        }
        match p {
            Some(i) => {
                assert(self@[i as int] == option_entry_view(self.entries@[i as int]));
                Some(&self.entries[i].1)
            },
            None => None,
        }
    }

    /// Binds `key` to `options`, replacing an existing binding of `key`.
    pub fn insert(&mut self, key: String, options: StringMap)
        ensures
            final(self)@ == assoc_set(old(self)@, key@, options@),
    {
        let kv = chars_of(key.as_str());
        let p = self.position(&kv);
        proof {
            lemma_assoc_set_position(old(self)@, key@, options@);
        }
        let ghost kk = key@;
        let ghost vv = options@;
        match p {
            Some(i) => {
                self.entries.set(i, (key, options));
                assert(self@ =~= old(self)@.update(i as int, (kk, vv)));
            },
            None => {
                self.entries.push((key, options));
                assert(self@ =~= old(self)@.push((kk, vv)));
            },
        }
    }
}

// ───────────────────────────── regular expressions ─────────────────────────────

#[verifier::external_type_specification]
#[verifier::external_body]
pub struct ExRegex(regex::Regex);

/// Whether `regex::Regex::new` accepts the pattern.
pub uninterp spec fn regex_is_valid(pattern: Seq<char>) -> bool;

/// What the first match of the regex compiled from `pattern` gives for the capture
/// group `index` in `text`: `None` when nothing matches, `Some(None)` when the group
/// took no part in the match, `Some(Some(g))` with the text of the group otherwise.
pub uninterp spec fn regex_group(pattern: Seq<char>, text: Seq<char>, index: nat) -> Option<Option<Seq<char>>>;

/// A regular expression together with the pattern it was compiled from.
struct CompiledRegex {
    pattern: String,
    re: regex::Regex,
}

impl CompiledRegex {
    /// The pattern the regex was compiled from.
    spec fn pattern(&self) -> Seq<char> {
        self.pattern@
    }
}

/// The views of a group outcome.
pub open spec fn group_view(g: Option<Option<String>>) -> Option<Option<Seq<char>>> {
    match g {
        None => None,
        Some(None) => Some(None),
        Some(Some(s)) => Some(Some(s@)),
    }
}

/// Calls `regex::Regex::new(pattern)`. Claims that it succeeds exactly when the
/// pattern is valid, and keeps the pattern beside the compiled regex (the only place
/// where a `CompiledRegex` is made).
#[verifier::external_body]
fn compile_regex(pattern: &str) -> (r: Option<CompiledRegex>)
    ensures
        r is Some <==> regex_is_valid(pattern@),
        r matches Some(c) ==> c.pattern() == pattern@,
{
    match regex::Regex::new(pattern) {
        Ok(re) => Some(CompiledRegex { pattern: pattern.to_string(), re }),
        Err(_) => None,
    }
}

/// Calls `Regex::captures(text)` and, on a match, `Captures::get(index)`, copying the
/// group's text. Claims only that the result is the named outcome for the regex's
/// pattern, the text and the index.
#[verifier::external_body]
fn capture_group(c: &CompiledRegex, text: &str, index: usize) -> (r: Option<Option<String>>)
    ensures
        group_view(r) == regex_group(c.pattern(), text@, index as nat),
{
    match c.re.captures(text) {
        Some(caps) => match caps.get(index) {
            Some(m) => Some(Some(m.as_str().to_string())),
            None => Some(None),
        },
        None => None,
    }
}

// ───────────────────────────── output paths ─────────────────────────────

/// The regex that a rule's source pattern stands for: `{}` becomes a capture group.
pub open spec fn rule_regex(pattern: Seq<char>) -> Seq<char> {
    replace(pattern, "{}"@, "(.+)"@)
}

/// What a rule's regex captures in the source path: `None` when the regex is
/// invalid or does not match.
pub open spec fn rule_capture(pattern: Seq<char>, source: Seq<char>) -> Option<Option<Seq<char>>> {
    if regex_is_valid(rule_regex(pattern)) {
        regex_group(rule_regex(pattern), source, 1)
    } else {
        None
    }
}

/// The output template with `{}` replaced by the captured text (empty when the
/// group did not take part).
pub open spec fn fill_template(template: Seq<char>, group: Option<Seq<char>>) -> Seq<char> {
    replace(
        template,
        "{}"@,
        match group {
            Some(g) => g,
            None => seq![],
        },
    )
}

/// The output path that the first matching rule gives, else the source path with
/// the extension `g.dart`.
pub open spec fn output_path_by(rules: Seq<(Seq<char>, Seq<char>)>, source: Seq<char>) -> Seq<char>
    decreases rules.len(),
{
    if rules.len() == 0 {
        with_extension(source, "g.dart"@)
    } else {
        match rule_capture(rules[0].0, source) {
            Some(g) => fill_template(rules[0].1, g),
            None => output_path_by(rules.drop_first(), source),
        }
    }
}

/// The output path for a rule that matched: the template with `{}` replaced by the
/// captured text.
pub fn fill_output_template(template: &str, group: &Option<String>) -> (r: String)
    ensures
        r@ == fill_template(template@, opt_text(*group)),
{
    let t = chars_of(template);
    let placeholder = chars_of("{}");
    let g = match group {
        Some(s) => chars_of(s.as_str()),
        None => Vec::new(),
    };
    proof {
        reveal_strlit("{}");
    }
    let out = replace_exec(&t, &placeholder, &g);
    proof {
        let expected: Seq<char> = match opt_text(*group) {
            Some(x) => x,
            None => seq![],
        };
        assert(g@ == expected);
    }
    string_of(&out)
}

pub open spec fn opt_text(o: Option<String>) -> Option<Seq<char>> {
    match o {
        Some(s) => Some(s@),
        None => None,
    }
}

// ───────────────────────────── the configuration ─────────────────────────────

/// Configuration loaded from `build.yaml` (or defaults where it says nothing).
#[derive(Debug)]
pub struct BuildConfig {
    /// Glob patterns for source files. Default: `["lib/**/*.dart"]`.
    pub include_patterns: Vec<String>,
    /// Output path rules: source pattern to output path template, `{}` standing for
    /// the captured part.
    pub build_extensions: StringMap,
    /// Per-plugin options keyed by lowercase annotation name.
    pub plugin_options: OptionsTable,
}

impl View for BuildConfig {
    type V = ConfigSpec;

    open spec fn view(&self) -> ConfigSpec {
        ConfigSpec {
            include_patterns: views(self.include_patterns@),
            build_extensions: self.build_extensions@,
            plugin_options: self.plugin_options@,
        }
    }
}

impl Default for BuildConfig {
    fn default() -> (r: Self)
        ensures
            r@ == default_config(),
    {
        let mut patterns: Vec<String> = Vec::new();
        patterns.push(owned("lib/**/*.dart"));
        let r = BuildConfig {
            include_patterns: patterns,
            build_extensions: StringMap::new(),
            plugin_options: OptionsTable::new(),
        };
        assert(r@.include_patterns =~= default_patterns());
        r
    }
}

/// The string items of `items`, in order.
fn collect_text_items(items: &Vec<YamlValue>) -> (r: Vec<String>)
    ensures
        views(r@) == text_items(items@),
{
    let mut out: Vec<String> = Vec::new();
    let mut i: usize = 0;
    assert(items@.take(0) =~= Seq::<YamlValue>::empty());
    while i < items.len()
        invariant
            i <= items.len(),
            views(out@) == text_items(items@.take(i as int)),
        decreases items.len() - i,
    {
        assert(items@.take(i as int + 1).drop_last() =~= items@.take(i as int));
        assert(items@.take(i as int + 1).last() == items@[i as int]);
        match items[i].as_str() {
            Some(s) => {
                let ghost before = out@;
                out.push(owned(s.as_str()));
                assert(views(out@) =~= views(before).push(s@));
            },
            None => {},
        }
        i = i + 1;
    }
    assert(items@.take(items@.len() as int) =~= items@);
    out
}

/// The string-to-string entries of a mapping, collected into a map.
fn collect_text_pairs(entries: &Vec<(YamlValue, YamlValue)>) -> (r: StringMap)
    ensures
        r@ == text_pairs(entries@),
{
    let mut out = StringMap::new();
    let mut i: usize = 0;
    assert(entries@.take(0) =~= Seq::<(YamlValue, YamlValue)>::empty());
    while i < entries.len()
        invariant
            i <= entries.len(),
            out@ == text_pairs(entries@.take(i as int)),
        decreases entries.len() - i,
    {
        assert(entries@.take(i as int + 1).drop_last() =~= entries@.take(i as int));
        assert(entries@.take(i as int + 1).last() == entries@[i as int]);
        let (k, v) = (&entries[i].0, &entries[i].1);
        match (k.as_str(), v.as_str()) {
            (Some(ks), Some(vs)) => {
                out.insert(owned(ks.as_str()), owned(vs.as_str()));
            },
            _ => {},
        }
        i = i + 1;
    }
    assert(entries@.take(entries@.len() as int) =~= entries@);
    out
}

/// The string-to-string entries under `key`, if it holds a mapping; else empty.
fn text_pairs_under(v: &YamlValue, key: &str) -> (r: StringMap)
    ensures
        r@ == (match yaml_get(*v, key@) {
            Some(m) => match yaml_entries(m) {
                Some(entries) => text_pairs(entries),
                None => seq![],
            },
            None => seq![],
        }),
{
    match v.get(key) {
        Some(m) => match m.as_mapping() {
            Some(entries) => collect_text_pairs(entries),
            None => StringMap::new(),
        },
        None => StringMap::new(),
    }
}

/// The options of every builder that names an annotation.
fn collect_plugin_table(builders: &Vec<YamlValue>) -> (r: OptionsTable)
    ensures
        r@ == plugin_table(builders@),
{
    let mut out = OptionsTable::new();
    let mut i: usize = 0;
    assert(builders@.take(0) =~= Seq::<YamlValue>::empty());
    while i < builders.len()
        invariant
            i <= builders.len(),
            out@ == plugin_table(builders@.take(i as int)),
        decreases builders.len() - i,
    {
        assert(builders@.take(i as int + 1).drop_last() =~= builders@.take(i as int));
        assert(builders@.take(i as int + 1).last() == builders@[i as int]);
        let b = &builders[i];
        match b.get("annotation") {
            Some(a) => match a.as_str() {
                Some(name) => {
                    let key = to_lowercase_str(name.as_str());
                    let options = text_pairs_under(b, "options");
                    out.insert(key, options);
                },
                None => {},
            },
            None => {},
        }
        i = i + 1;
    }
    assert(builders@.take(builders@.len() as int) =~= builders@);
    out
}

impl BuildConfig {
    /// The configuration that a parsed `build.yaml` document gives: the defaults
    /// unless the document is a mapping with a `veltro` section; within it,
    /// `generate_for` (a sequence of strings), `build_extensions` (a mapping of
    /// strings) and `builders` (a sequence of entries with an `annotation` string and
    /// an `options` mapping).
    pub fn from_document(doc: &YamlValue) -> (r: BuildConfig)
        ensures
            r@ == config_of(*doc),
    {
        match doc.get("veltro") {
            None => BuildConfig::default(),
            Some(section) => {
                let include_patterns = match section.get("generate_for") {
                    Some(g) => match g.as_sequence() {
                        Some(items) => collect_text_items(items),
                        None => {
                            let mut p: Vec<String> = Vec::new();
                            p.push(owned("lib/**/*.dart"));
                            assert(views(p@) =~= default_patterns());
                            p
                        },
                    },
                    None => {
                        let mut p: Vec<String> = Vec::new();
                        p.push(owned("lib/**/*.dart"));
                        assert(views(p@) =~= default_patterns());
                        p
                    },
                };
                let build_extensions = text_pairs_under(section, "build_extensions");
                let plugin_options = match section.get("builders") {
                    Some(b) => match b.as_sequence() {
                        Some(items) => collect_plugin_table(items),
                        None => OptionsTable::new(),
                    },
                    None => OptionsTable::new(),
                };
                BuildConfig { include_patterns, build_extensions, plugin_options }
            },
        }
    }

    /// The configuration that the text of `build.yaml` gives: that of its document,
    /// or the defaults when the text is not valid YAML.
    pub fn from_text(text: &str) -> (r: BuildConfig)
        ensures
            r@ == (match yaml_document(text@) {
                Some(doc) => config_of(doc),
                None => default_config(),
            }),
    {
        match parse_yaml(text) {
            Some(doc) => BuildConfig::from_document(&doc),
            None => BuildConfig::default(),
        }
    }

    /// The options stored under exactly `key`, or an empty map.
    pub fn options_for_key(&self, key: &str) -> (r: StringMap)
        ensures
            r@ == (match assoc_get(self@.plugin_options, key@) {
                Some(m) => m,
                None => seq![],
            }),
    {
        match self.plugin_options.get(key) {
            Some(m) => m.duplicate(),
            None => StringMap::new(),
        }
    }

    /// Options for an annotation name, looked up by its lowercase form (for an ASCII
    /// name, the name with its letters lowercased).
    pub fn options_for(&self, annotation: &str) -> (r: StringMap)
        ensures
            r@ == annotation_options(self@.plugin_options, annotation@),
            is_ascii_text(annotation@) ==> r@ == (match assoc_get(
                self@.plugin_options,
                annotation@.map_values(|c: char| ascii_lower(c)),
            ) {
                Some(m) => m,
                None => seq![],
            }),
    {
        let key = to_lowercase_str(annotation);
        self.options_for_key(key.as_str())
    }

    /// The output path for a source file: the first `build_extensions` rule whose
    /// pattern (with `{}` read as a capture group) matches gives it, with `{}` in its
    /// template replaced by the captured text; with no matching rule, the source path
    /// with the extension `g.dart`.
    pub fn resolve_output_path(&self, source: &str) -> (r: String)
        ensures
            r@ == output_path_by(self@.build_extensions, source@),
    {
        let rules = &self.build_extensions;
        let placeholder = chars_of("{}");
        let group_regex = chars_of("(.+)");
        let mut i: usize = 0;
        assert(self@.build_extensions.skip(0) =~= self@.build_extensions);
        while i < rules.len()
            invariant
                i <= rules@.len(),
                rules@ == self@.build_extensions,
                placeholder@ == "{}"@,
                group_regex@ == "(.+)"@,
                output_path_by(rules@, source@) == output_path_by(rules@.skip(i as int), source@),
            decreases rules@.len() - i,
        {
            let ghost rest = rules@.skip(i as int);
            assert(rest[0] == rules@[i as int]);
            assert(rest.drop_first() =~= rules@.skip(i as int + 1));
            let (pattern, template) = rules.entry(i);
            let p = chars_of(pattern.as_str());
            proof {
                reveal_strlit("{}");
            }
            let re_text = string_of(&replace_exec(&p, &placeholder, &group_regex));
            match compile_regex(re_text.as_str()) {
                Some(re) => match capture_group(&re, source, 1) {
                    Some(group) => {
                        return fill_output_template(template.as_str(), &group);
                    },
                    None => {},
                },
                None => {},
            }
            i = i + 1;
        }
        assert(rules@.skip(i as int).len() == 0);
        with_extension_exec(source, "g.dart")
    }
}

} // verus!
