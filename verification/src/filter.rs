//! Extraction rules: which entry paths an archive extraction keeps.
//!
//! A [`JarOption`] holds two rule sets, path prefixes and file extensions.
//! An entry is kept when either dimension matches, and a dimension with no
//! rules matches every path. Comparisons are byte-wise on the strings'
//! UTF-8 encodings, exactly as `str::starts_with` and `str::ends_with`
//! compare them.

use vstd::prelude::*;
use vstd::slice::slice_subrange;

verus! {

/// The byte of `.`, which separates a path from its extension.
pub const DOT: u8 = 46;

/// The bytes that a string's characters encode to; rules and paths are
/// matched on these.
pub open spec fn str_bytes(s: Seq<char>) -> Seq<u8> {
    vstd::utf8::encode_utf8(s)
}

/// The views of a list of rule strings.
pub open spec fn rule_views(rules: Seq<String>) -> Seq<Seq<char>> {
    rules.map_values(|s: String| s@)
}

/// No rule occurs twice: inserting one a second time was a no-op.
pub open spec fn no_dups(rules: Seq<Seq<char>>) -> bool {
    forall|i: int, j: int| 0 <= i < j < rules.len() ==> rules[i] != rules[j]
}

/// Set-like insertion: a rule already present is not added again.
pub open spec fn insert_rule(rules: Seq<Seq<char>>, r: Seq<char>) -> Seq<Seq<char>> {
    if rules.contains(r) {
        rules
    } else {
        rules.push(r)
    }
}

/// [`insert_rule`] applied to each added rule in turn, left to right.
pub open spec fn insert_rules(rules: Seq<Seq<char>>, added: Seq<Seq<char>>) -> Seq<Seq<char>>
    decreases added.len(),
{
    if added.len() == 0 {
        rules
    } else {
        insert_rule(insert_rules(rules, added.drop_last()), added.last())
    }
}

/// The extension of a path, in bytes: what follows the last `.`, or `None`
/// when no `.` occurs at all; the split that `rsplit_once(".")` makes.
pub open spec fn ext_of(s: Seq<u8>) -> Option<Seq<u8>>
    decreases s.len(),
{
    if s.len() == 0 {
        None
    } else if s.last() == DOT {
        Some(Seq::empty())
    } else {
        match ext_of(s.drop_last()) {
            None => None,
            Some(e) => Some(e.push(s.last())),
        }
    }
}

/// The prefix dimension: no rules at all, or some rule starts the path.
pub open spec fn prefix_match(rules: Seq<Seq<char>>, path: Seq<char>) -> bool {
    ||| rules.len() == 0
    ||| exists|i: int|
        0 <= i < rules.len() && str_bytes(rules[i]).is_prefix_of(str_bytes(path))
}

/// The extension dimension: no rules at all, or the path has an extension
/// and that extension merely ends with some rule (a suffix test, not
/// equality: the rule `ass` matches the extension `class`).
pub open spec fn extension_match(rules: Seq<Seq<char>>, path: Seq<char>) -> bool {
    ||| rules.len() == 0
    ||| match ext_of(str_bytes(path)) {
        None => false,
        Some(e) => exists|i: int|
            0 <= i < rules.len() && str_bytes(rules[i]).is_suffix_of(e),
    }
}

/// The combined acceptance rule: the two dimensions are joined by `or`, so
/// an empty extension set alone already accepts every path.
pub open spec fn accepts(opt: JarOption, path: Seq<char>) -> bool {
    prefix_match(opt.target_rules(), path) || extension_match(opt.extension_rules(), path)
}

/// Rules for which archive entries an extraction keeps.
#[derive(Debug, Clone, PartialEq, Eq)]
pub struct JarOption {
    extract_targets: Vec<String>,
    extension_targets: Vec<String>,
}

impl JarOption {
    /// The registered path-prefix rules.
    pub closed spec fn target_rules(&self) -> Seq<Seq<char>> {
        rule_views(self.extract_targets@)
    }

    /// The registered extension rules.
    pub closed spec fn extension_rules(&self) -> Seq<Seq<char>> {
        rule_views(self.extension_targets@)
    }

    /// Neither rule set holds a rule twice.
    pub open spec fn wf(&self) -> bool {
        no_dups(self.target_rules()) && no_dups(self.extension_rules())
    }

    /// True when the prefix rule set is empty or the path starts with some
    /// registered prefix.
    pub fn target_match(&self, qualified_target_path: &str) -> (r: bool)
        ensures
            r == prefix_match(self.target_rules(), qualified_target_path@),
    {
        if self.extract_targets.len() == 0 {
            return true;
        }
        let path_bytes = qualified_target_path.as_bytes();
        let n = self.extract_targets.len();
        let mut i: usize = 0;
        while i < n
            invariant
                n == self.extract_targets.len(),
                0 <= i <= n,
                path_bytes@ == str_bytes(qualified_target_path@),
                forall|j: int|
                    0 <= j < i ==> !str_bytes(self.target_rules()[j]).is_prefix_of(
                        str_bytes(qualified_target_path@),
                    ),
            decreases n - i,
        {
            let rule = &self.extract_targets[i];
            if bytes_starts_with(path_bytes, rule.as_str().as_bytes()) {
                assert(str_bytes(self.target_rules()[i as int]).is_prefix_of(
                    str_bytes(qualified_target_path@),
                ));
                return true;
            }
            i += 1;
        }
        false
    }

    /// True when the extension rule set is empty, or the path has an
    /// extension (text after its last `.`) that ends with some registered
    /// extension; a path without any `.` matches no non-empty rule set.
    pub fn ext_match(&self, qualified_target_path: &str) -> (r: bool)
        ensures
            r == extension_match(self.extension_rules(), qualified_target_path@),
    {
        if self.extension_targets.len() == 0 {
            return true;
        }
        let path_bytes = qualified_target_path.as_bytes();
        let dot = rfind_dot(path_bytes);
        match dot {
            None => {
                proof {
                    lemma_ext_of_no_dot(path_bytes@);
                }
                false
            },
            Some(d) => {
                proof {
                    lemma_ext_of_last_dot(path_bytes@, d as int);
                }
                let plen = path_bytes.len();
                let extension = slice_subrange(path_bytes, d + 1, plen);
                let n = self.extension_targets.len();
                let mut i: usize = 0;
                while i < n
                    invariant
                        n == self.extension_targets.len(),
                        0 <= i <= n,
                        ext_of(str_bytes(qualified_target_path@)) == Some(extension@),
                        forall|j: int|
                            0 <= j < i ==> !str_bytes(self.extension_rules()[j]).is_suffix_of(
                                extension@,
                            ),
                    decreases n - i,
                {
                    let rule = &self.extension_targets[i];
                    if bytes_ends_with(extension, rule.as_str().as_bytes()) {
                        assert(str_bytes(self.extension_rules()[i as int]).is_suffix_of(extension@));
                        return true;
                    }
                    i += 1;
                }
                false
            },
        }
    }
}

impl Default for JarOption {
    /// The accept-all rules: both rule sets empty.
    fn default() -> (o: Self)
        ensures
            o.target_rules() == Seq::<Seq<char>>::empty(),
            o.extension_rules() == Seq::<Seq<char>>::empty(),
            o.wf(),
    {
        let o = JarOption { extract_targets: Vec::new(), extension_targets: Vec::new() };
        proof {
            assert(o.target_rules() =~= Seq::<Seq<char>>::empty());
            assert(o.extension_rules() =~= Seq::<Seq<char>>::empty());
        }
        o
    }
}

/// Accumulates extraction rules and freezes them into a [`JarOption`].
#[derive(Debug)]
pub struct JarOptionBuilder {
    extract_targets: Vec<String>,
    extension_targets: Vec<String>,
}

impl JarOptionBuilder {
    /// The registered path-prefix rules so far.
    pub closed spec fn target_rules(&self) -> Seq<Seq<char>> {
        rule_views(self.extract_targets@)
    }

    /// The registered extension rules so far.
    pub closed spec fn extension_rules(&self) -> Seq<Seq<char>> {
        rule_views(self.extension_targets@)
    }

    /// Neither rule set holds a rule twice.
    pub open spec fn wf(&self) -> bool {
        no_dups(self.target_rules()) && no_dups(self.extension_rules())
    }

    /// A [`JarOption`] with no rules, which accepts every entry.
    pub fn default() -> (o: JarOption)
        ensures
            o.target_rules() == Seq::<Seq<char>>::empty(),
            o.extension_rules() == Seq::<Seq<char>>::empty(),
            o.wf(),
    {
        JarOption::default()
    }

    /// An empty builder: building at once gives the accept-all rules.
    pub fn builder() -> (b: Self)
        ensures
            b.target_rules() == Seq::<Seq<char>>::empty(),
            b.extension_rules() == Seq::<Seq<char>>::empty(),
            b.wf(),
    {
        let b = JarOptionBuilder { extract_targets: Vec::new(), extension_targets: Vec::new() };
        proof {
            assert(b.target_rules() =~= Seq::<Seq<char>>::empty());
            assert(b.extension_rules() =~= Seq::<Seq<char>>::empty());
        }
        b
    }

    /// Registers the `META-INF` folder as a path-prefix rule.
    pub fn keep_meta_info(self) -> (b: Self)
        requires
            self.wf(),
        ensures
            b.target_rules() == insert_rule(self.target_rules(), "META-INF"@),
            b.extension_rules() == self.extension_rules(),
            b.wf(),
    {
        self.target("META-INF")
    }

    /// Registers a path-prefix rule; registering one twice is a no-op.
    pub fn target(self, target: &str) -> (b: Self)
        requires
            self.wf(),
        ensures
            b.target_rules() == insert_rule(self.target_rules(), target@),
            b.extension_rules() == self.extension_rules(),
            b.wf(),
    {
        let mut b = self;
        insert_unique(&mut b.extract_targets, target.to_owned());
        b
    }

    /// Registers each path in turn as a path-prefix rule.
    pub fn targets(self, targets: &Vec<&str>) -> (b: Self)
        requires
            self.wf(),
        ensures
            b.target_rules() == insert_rules(self.target_rules(), targets@.map_values(|t: &str| t@)),
            b.extension_rules() == self.extension_rules(),
            b.wf(),
    {
        let mut b = self;
        let ghost added = targets@.map_values(|t: &str| t@);
        let n = targets.len();
        let mut i: usize = 0;
        while i < n
            invariant
                n == targets.len(),
                0 <= i <= n,
                added == targets@.map_values(|t: &str| t@),
                b.target_rules() == insert_rules(self.target_rules(), added.take(i as int)),
                b.extension_rules() == self.extension_rules(),
                b.wf(),
            decreases n - i,
        {
            insert_unique(&mut b.extract_targets, targets[i].to_owned());
            proof {
                assert(added.take(i + 1).drop_last() =~= added.take(i as int));
                assert(added.take(i + 1).last() == added[i as int]);
            }
            i += 1;
        }
        proof {
            assert(added.take(n as int) =~= added);
        }
        b
    }

    /// Registers an extension rule; registering one twice is a no-op.
    pub fn ext(self, ext: &str) -> (b: Self)
        requires
            self.wf(),
        ensures
            b.extension_rules() == insert_rule(self.extension_rules(), ext@),
            b.target_rules() == self.target_rules(),
            b.wf(),
    {
        let mut b = self;
        insert_unique(&mut b.extension_targets, ext.to_owned());
        b
    }

    /// Registers each extension in turn as an extension rule.
    pub fn exts(self, exts: &Vec<&str>) -> (b: Self)
        requires
            self.wf(),
        ensures
            b.extension_rules() == insert_rules(self.extension_rules(), exts@.map_values(|t: &str| t@)),
            b.target_rules() == self.target_rules(),
            b.wf(),
    {
        let mut b = self;
        let ghost added = exts@.map_values(|t: &str| t@);
        let n = exts.len();
        let mut i: usize = 0;
        while i < n
            invariant
                n == exts.len(),
                0 <= i <= n,
                added == exts@.map_values(|t: &str| t@),
                b.extension_rules() == insert_rules(self.extension_rules(), added.take(i as int)),
                b.target_rules() == self.target_rules(),
                b.wf(),
            decreases n - i,
        {
            insert_unique(&mut b.extension_targets, exts[i].to_owned());
            proof {
                assert(added.take(i + 1).drop_last() =~= added.take(i as int));
                assert(added.take(i + 1).last() == added[i as int]);
            }
            i += 1;
        }
        proof {
            assert(added.take(n as int) =~= added);
        }
        b
    }

    /// Freezes the accumulated rules into an immutable [`JarOption`]; the
    /// builder is consumed.
    pub fn build(self) -> (o: JarOption)
        ensures
            o.target_rules() == self.target_rules(),
            o.extension_rules() == self.extension_rules(),
            self.wf() ==> o.wf(),
    {
        JarOption { extract_targets: self.extract_targets, extension_targets: self.extension_targets }
    }
}

/// Appends a rule unless an equal one is already present, so the list never
/// holds a rule twice.
fn insert_unique(rules: &mut Vec<String>, r: String)
    requires
        no_dups(rule_views(old(rules)@)),
    ensures
        rule_views(final(rules)@) == insert_rule(rule_views(old(rules)@), r@),
        no_dups(rule_views(final(rules)@)),
{
    let n = rules.len();
    let mut i: usize = 0;
    while i < n
        invariant
            n == rules.len(),
            0 <= i <= n,
            rules@ == old(rules)@,
            no_dups(rule_views(rules@)),
            forall|j: int| 0 <= j < i ==> rule_views(rules@)[j] != r@,
        decreases n - i,
    {
        if rules[i] == r {
            assert(rule_views(rules@).contains(r@)) by {
                assert(rule_views(rules@)[i as int] == r@);
            }
            return;
        }
        i += 1;
    }
    assert(!rule_views(rules@).contains(r@)) by {
        assert(forall|j: int| 0 <= j < rule_views(rules@).len() ==> rule_views(rules@)[j] != r@);
    }
    let ghost before = rules@;
    rules.push(r);
    proof {
        assert(rule_views(rules@) =~= rule_views(before).push(r@));
    }
}

/// Whether `p` is a byte-wise prefix of `s`, as `str::starts_with` decides.
fn bytes_starts_with(s: &[u8], p: &[u8]) -> (r: bool)
    ensures
        r == p@.is_prefix_of(s@),
{
    if p.len() > s.len() {
        return false;
    }
    let n = p.len();
    let mut i: usize = 0;
    while i < n
        invariant
            n == p@.len() <= s@.len(),
            0 <= i <= n,
            forall|j: int| 0 <= j < i ==> s@[j] == p@[j],
        decreases n - i,
    {
        if s[i] != p[i] {
            assert(!p@.is_prefix_of(s@)) by {
                assert(p@[i as int] != s@.subrange(0, p@.len() as int)[i as int]);
            }
            return false;
        }
        i += 1;
    }
    assert(p@ =~= s@.subrange(0, p@.len() as int));
    true
}

/// Whether `p` is a byte-wise suffix of `s`, as `str::ends_with` decides.
fn bytes_ends_with(s: &[u8], p: &[u8]) -> (r: bool)
    ensures
        r == p@.is_suffix_of(s@),
{
    if p.len() > s.len() {
        return false;
    }
    let slen = s.len();
    let off = slen - p.len();
    let n = p.len();
    let mut i: usize = 0;
    while i < n
        invariant
            n == p@.len() <= s@.len(),
            slen == s@.len(),
            off == s@.len() - p@.len(),
            0 <= i <= n,
            forall|j: int| 0 <= j < i ==> s@[off + j] == p@[j],
        decreases n - i,
    {
        if s[off + i] != p[i] {
            assert(!p@.is_suffix_of(s@)) by {
                assert(p@[i as int] != s@.subrange(
                    s@.len() - p@.len(),
                    s@.len() as int,
                )[i as int]);
            }
            return false;
        }
        i += 1;
    }
    assert(p@ =~= s@.subrange(s@.len() - p@.len(), s@.len() as int));
    true
}

/// The index of the last `.` byte of `s`, if any.
fn rfind_dot(s: &[u8]) -> (r: Option<usize>)
    ensures
        (r is None ==> forall|j: int| 0 <= j < s@.len() ==> s@[j] != DOT),
        (r matches Some(d) ==> 0 <= d < s@.len() && s@[d as int] == DOT && forall|j: int|
            d < j < s@.len() ==> s@[j] != DOT),
{
    let mut i: usize = s.len();
    while i > 0
        invariant
            0 <= i <= s@.len(),
            forall|j: int| i <= j < s@.len() ==> s@[j] != DOT,
        decreases i,
    {
        i = i - 1;
        if s[i] == DOT {
            return Some(i);
        }
    }
    None
}

/// A path without any `.` has no extension.
pub proof fn lemma_ext_of_no_dot(s: Seq<u8>)
    requires
        forall|j: int| 0 <= j < s.len() ==> s[j] != DOT,
    ensures
        ext_of(s) is None,
    decreases s.len(),
{
    if s.len() > 0 {
        assert(forall|j: int| 0 <= j < s.drop_last().len() ==> s.drop_last()[j] == s[j]);
        lemma_ext_of_no_dot(s.drop_last());
    }
}

/// The extension is exactly what follows the last `.` of the path.
pub proof fn lemma_ext_of_last_dot(s: Seq<u8>, d: int)
    requires
        0 <= d < s.len(),
        s[d] == DOT,
        forall|j: int| d < j < s.len() ==> s[j] != DOT,
    ensures
        ext_of(s) == Some(s.subrange(d + 1, s.len() as int)),
    decreases s.len(),
{
    if d == s.len() - 1 {
        assert(s.last() == DOT);
        assert(s.subrange(d + 1, s.len() as int) =~= Seq::<u8>::empty());
    } else {
        assert(s.last() != DOT);
        assert(forall|j: int| 0 <= j < s.drop_last().len() ==> s.drop_last()[j] == s[j]);
        lemma_ext_of_last_dot(s.drop_last(), d);
        assert(s.subrange(d + 1, s.len() as int) =~= s.drop_last().subrange(
            d + 1,
            s.len() - 1,
        ).push(s.last()));
    }
}

/// With both rule sets empty, every path is accepted.
pub proof fn lemma_empty_rules_accept_all(opt: JarOption, path: Seq<char>)
    requires
        opt.target_rules().len() == 0,
        opt.extension_rules().len() == 0,
    ensures
        accepts(opt, path),
{
}

/// An empty extension rule set alone already accepts every path, whatever
/// prefix rules are registered: the dimensions are joined by `or`, and an
/// empty dimension matches everything.
pub proof fn lemma_empty_extensions_accept_all(opt: JarOption, path: Seq<char>)
    requires
        opt.extension_rules().len() == 0,
    ensures
        accepts(opt, path),
{
}

/// A path that starts with a registered prefix is accepted, whatever the
/// extension rules say.
pub proof fn lemma_prefix_rule_accepts(opt: JarOption, path: Seq<char>, k: int)
    requires
        0 <= k < opt.target_rules().len(),
        str_bytes(opt.target_rules()[k]).is_prefix_of(str_bytes(path)),
    ensures
        prefix_match(opt.target_rules(), path),
        accepts(opt, path),
{
}

/// The extension dimension matches as soon as the path's true extension
/// ends with a registered rule, even when the two are not equal.
pub proof fn lemma_extension_suffix_accepts(opt: JarOption, path: Seq<char>, e: Seq<u8>, k: int)
    requires
        ext_of(str_bytes(path)) == Some(e),
        0 <= k < opt.extension_rules().len(),
        str_bytes(opt.extension_rules()[k]).is_suffix_of(e),
    ensures
        extension_match(opt.extension_rules(), path),
        accepts(opt, path),
{
}

} // verus!
