//! In-memory accumulation of generated files.
//!
//! A [`FileMap`] is a set of `{relative path, content}` pairs kept sorted by
//! path, with the path as the key: the last write for a path wins.  A
//! [`FileCollector`] builds such a map from rendered file bodies, prepending
//! the language profile's header line, whose marker later lets the commit
//! protocol recognise files it owns.  Nothing here touches a filesystem.

use vstd::prelude::*;
use vstd::string::*;
use vstd::pervasive::VecAdditionalExecFns;

verus! {

/// Lexicographic order on character sequences, read from position `i` on.
pub open spec fn lex_lt_from(a: Seq<char>, b: Seq<char>, i: int) -> bool
    decreases a.len() - i,
{
    if i >= a.len() {
        i < b.len()
    } else if i >= b.len() {
        false
    } else if a[i] != b[i] {
        a[i] < b[i]
    } else {
        lex_lt_from(a, b, i + 1)
    }
}

/// Strict lexicographic order on character sequences.
pub open spec fn lex_lt(a: Seq<char>, b: Seq<char>) -> bool {
    lex_lt_from(a, b, 0)
}

/// Compares two strings in lexicographic character order.
pub fn str_lt(a: &str, b: &str) -> (r: bool)
    ensures
        r == lex_lt(a@, b@),
{
    let alen = a.unicode_len();
    let blen = b.unicode_len();
    let mut i: usize = 0;
    loop
        invariant
            i <= alen,
            i <= blen,
            alen == a@.len(),
            blen == b@.len(),
            lex_lt(a@, b@) == lex_lt_from(a@, b@, i as int),
        decreases alen - i,
    {
        if i >= alen {
            return i < blen;
        }
        if i >= blen {
            return false;
        }
        let ca = a.get_char(i);
        let cb = b.get_char(i);
        if ca != cb {
            return ca < cb;
        }
        i = i + 1;
    }
}

/// Tests two strings for character-wise equality.
pub fn str_eq(a: &str, b: &str) -> (r: bool)
    ensures
        r == (a@ == b@),
{
    let alen = a.unicode_len();
    let blen = b.unicode_len();
    if alen != blen {
        return false;
    }
    let mut i: usize = 0;
    while i < alen
        invariant
            i <= alen,
            alen == a@.len(),
            alen == b@.len(),
            forall|j: int| 0 <= j < i ==> a@[j] == b@[j],
        decreases alen - i,
    {
        if a.get_char(i) != b.get_char(i) {
            return false;
        }
        i = i + 1;
    }
    proof {
        assert(a@ =~= b@);
    }
    true
}

/// An ordered `{path, content}` map: the entries sorted strictly by path.
pub struct FileMap {
    entries: Vec<(String, String)>,
}

impl View for FileMap {
    type V = Seq<(Seq<char>, Seq<char>)>;

    closed spec fn view(&self) -> Seq<(Seq<char>, Seq<char>)> {
        self.entries@.map_values(|p: (String, String)| (p.0@, p.1@))
    }
}

/// Adjacent entries strictly ordered by path; paths are therefore unique.
pub open spec fn sorted_keys(s: Seq<(Seq<char>, Seq<char>)>) -> bool {
    forall|i: int| 0 <= i < s.len() - 1 ==> lex_lt(#[trigger] s[i].0, s[i + 1].0)
}

/// Insertion into a path-sorted sequence: an equal path is overwritten in
/// place, a new path takes its ordered position.
pub open spec fn sorted_insert(
    s: Seq<(Seq<char>, Seq<char>)>,
    k: Seq<char>,
    v: Seq<char>,
) -> Seq<(Seq<char>, Seq<char>)>
    decreases s.len(),
{
    if s.len() == 0 {
        seq![(k, v)]
    } else if lex_lt(s[0].0, k) {
        seq![s[0]] + sorted_insert(s.drop_first(), k, v)
    } else if s[0].0 == k {
        seq![(k, v)] + s.drop_first()
    } else {
        seq![(k, v)] + s
    }
}

/// The paths of a file set, in stored order.
pub open spec fn key_seq(s: Seq<(Seq<char>, Seq<char>)>) -> Seq<Seq<char>> {
    s.map_values(|p: (Seq<char>, Seq<char>)| p.0)
}

proof fn lemma_sorted_insert_at(s: Seq<(Seq<char>, Seq<char>)>, k: Seq<char>, v: Seq<char>, i: int)
    requires
        0 <= i <= s.len(),
        forall|j: int| 0 <= j < i ==> lex_lt(s[j].0, k),
        i < s.len() ==> !lex_lt(s[i].0, k),
    ensures
        i < s.len() && s[i].0 == k ==> sorted_insert(s, k, v) =~= s.subrange(0, i) + seq![(k, v)]
            + s.subrange(i + 1, s.len() as int),
        !(i < s.len() && s[i].0 == k) ==> sorted_insert(s, k, v) =~= s.subrange(0, i) + seq![
            (k, v),
        ] + s.subrange(i, s.len() as int),
    decreases i,
{
    if i == 0 {
        if s.len() > 0 && s[0].0 == k {
            assert(sorted_insert(s, k, v) == seq![(k, v)] + s.drop_first());
            assert(s.drop_first() =~= s.subrange(1, s.len() as int));
        } else if s.len() > 0 {
            assert(sorted_insert(s, k, v) == seq![(k, v)] + s);
            assert(s.subrange(0, s.len() as int) =~= s);
        }
    } else {
        assert(lex_lt(s[0].0, k));
        assert(sorted_insert(s, k, v) == seq![s[0]] + sorted_insert(s.drop_first(), k, v));
        let t = s.drop_first();
        assert forall|j: int| 0 <= j < i - 1 implies lex_lt(t[j].0, k) by {
            assert(t[j] == s[j + 1]);
        }
        assert(i - 1 < t.len() ==> t[i - 1] == s[i]);
        lemma_sorted_insert_at(t, k, v, i - 1);
        assert(t.subrange(0, i - 1) =~= s.subrange(1, i));
        if i < s.len() && s[i].0 == k {
            assert(t.subrange(i, t.len() as int) =~= s.subrange(i + 1, s.len() as int));
            assert(seq![s[0]] + (t.subrange(0, i - 1) + seq![(k, v)] + t.subrange(
                i,
                t.len() as int,
            )) =~= s.subrange(0, i) + seq![(k, v)] + s.subrange(i + 1, s.len() as int));
        } else {
            assert(t.subrange(i - 1, t.len() as int) =~= s.subrange(i, s.len() as int));
            assert(seq![s[0]] + (t.subrange(0, i - 1) + seq![(k, v)] + t.subrange(
                i - 1,
                t.len() as int,
            )) =~= s.subrange(0, i) + seq![(k, v)] + s.subrange(i, s.len() as int));
        }
    }
}

impl FileMap {
    /// The entries are strictly ordered by path.
    pub open spec fn wf(&self) -> bool {
        sorted_keys(self@)
    }

    /// Returns an empty file set.
    pub fn new() -> (r: FileMap)
        ensures
            r@ == Seq::<(Seq<char>, Seq<char>)>::empty(),
            r.wf(),
    {
        let r = FileMap { entries: Vec::new() };
        proof {
            assert(r@ =~= Seq::<(Seq<char>, Seq<char>)>::empty());
        }
        r
    }

    /// Number of entries.
    pub fn len(&self) -> (r: usize)
        ensures
            r == self@.len(),
    {
        self.entries.len()
    }

    /// The entry at a position, in path order.
    pub fn entry_at(&self, i: usize) -> (r: (&String, &String))
        requires
            i < self@.len(),
        ensures
            r.0@ == self@[i as int].0,
            r.1@ == self@[i as int].1,
    {
        let e = &self.entries[i];
        (&e.0, &e.1)
    }

    /// Stores `content` under `path`, keeping the entries sorted; an entry
    /// with the same path is overwritten.
    pub fn insert(&mut self, path: &str, content: String)
        requires
            old(self).wf(),
        ensures
            final(self)@ == sorted_insert(old(self)@, path@, content@),
            final(self).wf(),
    {
        let ghost s0 = self@;
        let mut i: usize = 0;
        while i < self.entries.len() && str_lt(self.entries[i].0.as_str(), path)
            invariant
                self@ == s0,
                sorted_keys(s0),
                i <= s0.len(),
                self.entries@.len() == s0.len(),
                forall|j: int| 0 <= j < i ==> lex_lt(s0[j].0, path@),
                forall|j: int| 0 <= j < s0.len() ==> #[trigger] s0[j] == (
                    self.entries@[j].0@,
                    self.entries@[j].1@,
                ),
            decreases s0.len() - i,
        {
            i = i + 1;
        }
        proof {
            lemma_sorted_insert_at(s0, path@, content@, i as int);
            lemma_sorted_insert_preserves_sorted(s0, path@, content@);
        }
        let same_key = i < self.entries.len() && str_eq(self.entries[i].0.as_str(), path);
        if same_key {
            self.entries.set(i, (path.to_owned(), content));
            proof {
                assert(self@ =~= s0.subrange(0, i as int) + seq![(path@, content@)]
                    + s0.subrange(i as int + 1, s0.len() as int));
                assert(self@ =~= sorted_insert(s0, path@, content@));
            }
        } else {
            let ghost e0 = self.entries@;
            let new_entry = (path.to_owned(), content);
            let ghost elem = new_entry;
            self.entries.insert(i, new_entry);
            proof {
                e0.insert_ensures(i as int, elem);
                assert(self@ =~= s0.subrange(0, i as int) + seq![(path@, content@)]
                    + s0.subrange(i as int, s0.len() as int));
                assert(self@ =~= sorted_insert(s0, path@, content@));
            }
        }
    }

    /// Returns a content-equal copy.
    pub fn duplicate(&self) -> (r: FileMap)
        ensures
            r@ == self@,
    {
        let mut out: Vec<(String, String)> = Vec::new();
        let mut i: usize = 0;
        while i < self.entries.len()
            invariant
                i <= self.entries@.len(),
                out@.len() == i,
                forall|j: int| #![auto] 0 <= j < i ==> out@[j].0@ == self.entries@[j].0@
                    && out@[j].1@ == self.entries@[j].1@,
            decreases self.entries@.len() - i,
        {
            let p = self.entries[i].0.clone();
            let c = self.entries[i].1.clone();
            out.push((p, c));
            i = i + 1;
        }
        let r = FileMap { entries: out };
        proof {
            assert(r@ =~= self@);
        }
        r
    }
}

proof fn lemma_sorted_insert_preserves_sorted(
    s: Seq<(Seq<char>, Seq<char>)>,
    k: Seq<char>,
    v: Seq<char>,
)
    requires
        sorted_keys(s),
    ensures
        sorted_keys(sorted_insert(s, k, v)),
    decreases s.len(),
{
    if s.len() == 0 {
    } else if lex_lt(s[0].0, k) {
        let t = s.drop_first();
        assert forall|i: int| 0 <= i < t.len() - 1 implies lex_lt(#[trigger] t[i].0, t[i + 1].0) by {
            assert(t[i] == s[i + 1]);
            assert(t[i + 1] == s[i + 2]);
        }
        lemma_sorted_insert_preserves_sorted(t, k, v);
        let r = seq![s[0]] + sorted_insert(t, k, v);
        let rt = sorted_insert(t, k, v);
        assert(rt.len() >= 1) by {
            lemma_sorted_insert_len(t, k, v);
        }
        assert(lex_lt(s[0].0, rt[0].0)) by {
            if t.len() == 0 {
            } else if lex_lt(t[0].0, k) {
                assert(rt[0] == t[0]);
                assert(t[0] == s[1]);
            } else if t[0].0 == k {
                assert(rt[0].0 == k);
            } else {
                assert(rt[0].0 == k);
            }
        }
        assert forall|i: int| 0 <= i < r.len() - 1 implies lex_lt(#[trigger] r[i].0, r[i + 1].0) by {
            if i == 0 {
                assert(r[0] == s[0]);
                assert(r[1] == rt[0]);
            } else {
                assert(r[i] == rt[i - 1]);
                assert(r[i + 1] == rt[i]);
            }
        }
    } else if s[0].0 == k {
        let r = seq![(k, v)] + s.drop_first();
        assert forall|i: int| 0 <= i < r.len() - 1 implies lex_lt(#[trigger] r[i].0, r[i + 1].0) by {
            if i == 0 {
                assert(r[1] == s[1]);
                assert(lex_lt(s[0].0, s[1].0));
            } else {
                assert(r[i] == s[i]);
                assert(r[i + 1] == s[i + 1]);
            }
        }
    } else {
        let r = seq![(k, v)] + s;
        lemma_lex_total(k, s[0].0);
        assert forall|i: int| 0 <= i < r.len() - 1 implies lex_lt(#[trigger] r[i].0, r[i + 1].0) by {
            if i == 0 {
                assert(r[1] == s[0]);
            } else {
                assert(r[i] == s[i - 1]);
                assert(r[i + 1] == s[i]);
            }
        }
    }
}

proof fn lemma_sorted_insert_len(s: Seq<(Seq<char>, Seq<char>)>, k: Seq<char>, v: Seq<char>)
    ensures
        sorted_insert(s, k, v).len() >= 1,
    decreases s.len(),
{
    if s.len() > 0 && lex_lt(s[0].0, k) {
        lemma_sorted_insert_len(s.drop_first(), k, v);
    }
}

proof fn lemma_lex_total_from(a: Seq<char>, b: Seq<char>, i: int)
    requires
        0 <= i <= a.len(),
        i <= b.len(),
        forall|j: int| 0 <= j < i ==> a[j] == b[j],
    ensures
        lex_lt_from(a, b, i) || lex_lt_from(b, a, i) || a == b,
    decreases a.len() - i,
{
    if i >= a.len() || i >= b.len() {
        if a.len() == b.len() && i >= a.len() {
            assert(a =~= b);
        }
    } else if a[i] == b[i] {
        lemma_lex_total_from(a, b, i + 1);
    }
}

proof fn lemma_lex_total(a: Seq<char>, b: Seq<char>)
    ensures
        lex_lt(a, b) || lex_lt(b, a) || a == b,
{
    lemma_lex_total_from(a, b, 0);
}

/// The marker by which the commit protocol recognises a generated file.
pub open spec fn marker() -> Seq<char> {
    "generated by typegen"@
}

/// Returns the marker string embedded in every generated file's header.
pub fn generation_marker() -> (r: &'static str)
    ensures
        r@ == marker(),
{
    "generated by typegen"
}

/// Only this many characters at the start of a file are inspected for the
/// marker, bounding the cost of scanning large unrelated files.
pub open spec fn scan_limit() -> int {
    1024
}

/// The bounded prefix of a file content that the ownership check reads.
pub open spec fn scan_prefix(content: Seq<char>) -> Seq<char> {
    if content.len() <= scan_limit() {
        content
    } else {
        content.subrange(0, scan_limit())
    }
}

/// The marker occurs at position `i` of `s`.
pub open spec fn marker_at(s: Seq<char>, i: int) -> bool {
    0 <= i && i + marker().len() <= s.len() && s.subrange(i, i + marker().len()) == marker()
}

/// A file counts as generator-owned when its bounded prefix holds the marker.
pub open spec fn is_generated_content(content: Seq<char>) -> bool {
    exists|i: int| marker_at(scan_prefix(content), i)
}

fn match_at(s: &str, pat: &str, i: usize) -> (r: bool)
    requires
        i + pat@.len() <= s@.len(),
    ensures
        r == (s@.subrange(i as int, i as int + pat@.len() as int) == pat@),
{
    let plen = pat.unicode_len();
    let slen = s.unicode_len();
    let mut j: usize = 0;
    while j < plen
        invariant
            j <= plen,
            plen == pat@.len(),
            slen == s@.len(),
            i + plen <= slen,
            forall|l: int| 0 <= l < j ==> s@[i + l] == pat@[l],
        decreases plen - j,
    {
        if s.get_char(i + j) != pat.get_char(j) {
            proof {
                assert(s@.subrange(i as int, i as int + plen as int)[j as int] == s@[i + j]);
            }
            return false;
        }
        j = j + 1;
    }
    proof {
        assert(s@.subrange(i as int, i as int + plen as int) =~= pat@);
    }
    true
}

proof fn lemma_marker_at_prefix(content: Seq<char>, i: int)
    requires
        0 <= i,
        i + marker().len() <= scan_prefix(content).len(),
    ensures
        marker_at(scan_prefix(content), i) <==> content.subrange(i, i + marker().len())
            == marker(),
{
    let sp = scan_prefix(content);
    assert(sp.subrange(i, i + marker().len()) =~= content.subrange(i, i + marker().len()));
}

/// Tests whether a file content carries the generation marker within its
/// bounded prefix: the content-sniffing heuristic of the commit protocol.
pub fn is_generated(content: &str) -> (r: bool)
    ensures
        r == is_generated_content(content@),
{
    proof {
        reveal_strlit("generated by typegen");
    }
    let m = generation_marker();
    let mlen = m.unicode_len();
    let clen = content.unicode_len();
    let n: usize = if clen < 1024 {
        clen
    } else {
        1024
    };
    proof {
        assert(n == scan_prefix(content@).len());
    }
    if n < mlen {
        proof {
            assert forall|i: int| !marker_at(scan_prefix(content@), i) by {}
        }
        return false;
    }
    let mut i: usize = 0;
    while i + mlen <= n
        invariant
            i <= n,
            n <= clen,
            mlen <= n,
            clen == content@.len(),
            mlen == marker().len(),
            n == scan_prefix(content@).len(),
            m@ == marker(),
            1 <= mlen,
            forall|j: int| 0 <= j < i ==> !marker_at(scan_prefix(content@), j),
        decreases n - i,
    {
        if match_at(content, m, i) {
            proof {
                lemma_marker_at_prefix(content@, i as int);
            }
            return true;
        }
        proof {
            lemma_marker_at_prefix(content@, i as int);
        }
        i = i + 1;
    }
    proof {
        assert forall|j: int| !marker_at(scan_prefix(content@), j) by {
            if 0 <= j < i {
            } else if j >= i {
                assert(j + marker().len() > n);
            }
        }
    }
    false
}

/// A language profile: the capability a target language contributes, namely
/// the header text prepended to every generated file.
pub struct LanguageProfile {
    prefix: String,
}

impl View for LanguageProfile {
    type V = Seq<char>;

    closed spec fn view(&self) -> Seq<char> {
        self.prefix@
    }
}

impl LanguageProfile {
    /// Builds a profile from its content-prefix text.
    pub fn new(prefix: &str) -> (r: LanguageProfile)
        ensures
            r@ == prefix@,
    {
        LanguageProfile { prefix: prefix.to_owned() }
    }

    /// The header text prepended to every file of this profile.
    pub fn content_prefix(&self) -> (r: &str)
        ensures
            r@ == self@,
    {
        self.prefix.as_str()
    }
}

/// What the collector stores for a file: the profile header, a line break,
/// then the rendered body.
pub open spec fn stored_content(header: Seq<char>, body: Seq<char>) -> Seq<char> {
    header + "\n"@ + body
}

/// A header that shows the marker within the scanned prefix of any file it
/// heads.
pub open spec fn header_is_marked(h: Seq<char>) -> bool {
    exists|i: int|
        0 <= i && i + marker().len() <= scan_limit() && i + marker().len() <= h.len()
            && #[trigger] h.subrange(i, i + marker().len()) == marker()
}

/// Every file stored under a marked header passes the ownership check,
/// whatever its body.
pub proof fn lemma_stored_content_is_generated(h: Seq<char>, body: Seq<char>)
    requires
        header_is_marked(h),
    ensures
        is_generated_content(stored_content(h, body)),
{
    let i = choose|i: int|
        0 <= i && i + marker().len() <= scan_limit() && i + marker().len() <= h.len()
            && #[trigger] h.subrange(i, i + marker().len()) == marker();
    let s = stored_content(h, body);
    let sp = scan_prefix(s);
    assert(s.len() >= h.len());
    assert(i + marker().len() <= sp.len());
    assert(sp.subrange(i, i + marker().len()) =~= h.subrange(i, i + marker().len()));
    assert(marker_at(sp, i));
}

/// Accumulates generated files in memory: each stored content is the
/// profile's header, a line break, and the file body.  Nothing is written
/// anywhere until the whole set is handed to the commit protocol.
pub struct FileCollector {
    profile: LanguageProfile,
    files: FileMap,
}

/// The outcome of converting one entity to a template model and rendering
/// it, as reported by the template engine.
pub enum TemplateOutcome {
    Rendered(String),
    ConversionFailed,
    RenderFailed,
}

/// Why a file could not be added to the collector.
pub enum CollectError {
    ModelConversion { path: String },
    Render { path: String },
}

impl View for FileCollector {
    type V = Seq<(Seq<char>, Seq<char>)>;

    closed spec fn view(&self) -> Seq<(Seq<char>, Seq<char>)> {
        self.files@
    }
}

impl FileCollector {
    /// The stored file set is sorted by path.
    pub open spec fn wf(&self) -> bool {
        sorted_keys(self@)
    }

    /// The header text this collector prepends.
    pub closed spec fn header(&self) -> Seq<char> {
        self.profile@
    }

    /// Returns an empty collector for the given language profile.
    pub fn new(profile: LanguageProfile) -> (r: FileCollector)
        ensures
            r@ == Seq::<(Seq<char>, Seq<char>)>::empty(),
            r.header() == profile@,
            r.wf(),
    {
        FileCollector { profile, files: FileMap::new() }
    }

    /// Stores a file body under a relative path, prepending the header; a
    /// prior entry for the same path is overwritten.
    pub fn add_file(&mut self, name: &str, contents: &str)
        requires
            old(self).wf(),
        ensures
            final(self)@ == sorted_insert(
                old(self)@,
                name@,
                stored_content(old(self).header(), contents@),
            ),
            final(self).header() == old(self).header(),
            final(self).wf(),
    {
        let mut body = self.profile.prefix.clone();
        body.append("\n");
        body.append(contents);
        self.files.insert(name, body);
    }

    /// Stores the outcome of a template render under a relative path.  A
    /// conversion or render failure is propagated, tagged with the path, and
    /// leaves the collector unchanged: a failed pass never contributes files.
    pub fn add_rendered(&mut self, name: &str, outcome: TemplateOutcome) -> (r: Result<
        (),
        CollectError,
    >)
        requires
            old(self).wf(),
        ensures
            final(self).header() == old(self).header(),
            final(self).wf(),
            outcome matches TemplateOutcome::Rendered(text) ==> r is Ok && final(self)@
                == sorted_insert(
                old(self)@,
                name@,
                stored_content(old(self).header(), text@),
            ),
            outcome is ConversionFailed ==> final(self)@ == old(self)@ && (r matches Err(
                CollectError::ModelConversion { path },
            ) && path@ == name@),
            outcome is RenderFailed ==> final(self)@ == old(self)@ && (r matches Err(
                CollectError::Render { path },
            ) && path@ == name@),
    {
        match outcome {
            TemplateOutcome::Rendered(text) => {
                self.add_file(name, text.as_str());
                Ok(())
            },
            TemplateOutcome::ConversionFailed => Err(
                CollectError::ModelConversion { path: name.to_owned() },
            ),
            TemplateOutcome::RenderFailed => Err(CollectError::Render { path: name.to_owned() }),
        }
    }

    /// The accumulated file set, for the commit stage.
    pub fn snapshot(&self) -> (r: &FileMap)
        ensures
            r@ == self@,
            self.wf() ==> r.wf(),
    {
        &self.files
    }
}

/// Storing the same content under the same path twice is idempotent: within
/// one pass, adds are freely retryable.
pub proof fn lemma_sorted_insert_idempotent(
    s: Seq<(Seq<char>, Seq<char>)>,
    k: Seq<char>,
    v: Seq<char>,
)
    ensures
        sorted_insert(sorted_insert(s, k, v), k, v) == sorted_insert(s, k, v),
    decreases s.len(),
{
    let once = sorted_insert(s, k, v);
    if s.len() == 0 {
        assert(once == seq![(k, v)]);
        assert(once[0].0 == k);
        assert(!lex_lt(once[0].0, k)) by {
            lemma_lex_irreflexive(k);
        }
        assert(sorted_insert(once, k, v) == seq![(k, v)] + once.drop_first());
        assert(seq![(k, v)] + once.drop_first() =~= once);
    } else if lex_lt(s[0].0, k) {
        lemma_sorted_insert_idempotent(s.drop_first(), k, v);
        assert(once == seq![s[0]] + sorted_insert(s.drop_first(), k, v));
        assert(once[0] == s[0]);
        assert(once.drop_first() =~= sorted_insert(s.drop_first(), k, v));
        assert(sorted_insert(once, k, v) == seq![once[0]] + sorted_insert(
            once.drop_first(),
            k,
            v,
        ));
        assert(seq![once[0]] + sorted_insert(once.drop_first(), k, v) =~= once);
    } else if s[0].0 == k {
        assert(once == seq![(k, v)] + s.drop_first());
        assert(once[0].0 == k);
        assert(!lex_lt(once[0].0, k)) by {
            lemma_lex_irreflexive(k);
        }
        assert(sorted_insert(once, k, v) == seq![(k, v)] + once.drop_first());
        assert(seq![(k, v)] + once.drop_first() =~= once);
    } else {
        assert(once == seq![(k, v)] + s);
        assert(once[0].0 == k);
        assert(!lex_lt(once[0].0, k)) by {
            lemma_lex_irreflexive(k);
        }
        assert(sorted_insert(once, k, v) == seq![(k, v)] + once.drop_first());
        assert(seq![(k, v)] + once.drop_first() =~= once);
    }
}

proof fn lemma_lex_irreflexive_from(a: Seq<char>, i: int)
    requires
        0 <= i,
    ensures
        !lex_lt_from(a, a, i),
    decreases a.len() - i,
{
    if i < a.len() {
        lemma_lex_irreflexive_from(a, i + 1);
    }
}

proof fn lemma_lex_irreflexive(a: Seq<char>)
    ensures
        !lex_lt(a, a),
{
    lemma_lex_irreflexive_from(a, 0);
}

} // verus!
