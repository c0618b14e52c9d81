//! Package metadata: the names, paths and module identities a package may declare, and the
//! checks that keep them canonical.
use vstd::prelude::*;
use crate::text::{chars_of, push_str, str_equal, string_from_range};

verus! {

/// The first position at or after `from` holding `c`.
pub open spec fn char_index(s: Seq<char>, c: char, from: nat) -> Option<nat>
    decreases s.len() - from,
{
    if from >= s.len() {
        None
    } else if s[from as int] == c {
        Some(from)
    } else {
        char_index(s, c, from + 1)
    }
}

/// What `char_index` finds: the first `c` at or after `from`, or none there.
pub proof fn lemma_char_index(s: Seq<char>, c: char, from: nat)
    ensures
        match char_index(s, c, from) {
            Some(i) => from <= i < s.len() && s[i as int] == c && forall|k: int|
                from <= k < i ==> #[trigger] s[k] != c,
            None => forall|k: int| from <= k < s.len() ==> #[trigger] s[k] != c,
        },
    decreases s.len() - from,
{
    if from < s.len() && s[from as int] != c {
        lemma_char_index(s, c, from + 1);
    }
}

/// The pieces of `s` from `start` on between occurrences of `c`, as `str::split` cuts them.
pub open spec fn segments_from(s: Seq<char>, c: char, start: nat) -> Seq<Seq<char>>
    decreases s.len() - start,
{
    if start > s.len() {
        Seq::empty()
    } else {
        match char_index(s, c, start) {
            None => seq![s.subrange(start as int, s.len() as int)],
            Some(i) => {
                proof {
                    lemma_char_index(s, c, start);
                }
                seq![s.subrange(start as int, i as int)] + segments_from(s, c, i + 1)
            },
        }
    }
}

/// The pieces of `s` between occurrences of `c`; an empty string is one empty piece.
pub open spec fn segments(s: Seq<char>, c: char) -> Seq<Seq<char>> {
    segments_from(s, c, 0)
}

/// A lowercase module component: a lowercase ASCII letter, then lowercase letters, digits and
/// hyphens.
pub open spec fn valid_component(c: Seq<char>) -> bool {
    &&& c.len() >= 1
    &&& 'a' <= c[0] && c[0] <= 'z'
    &&& forall|k: int| 1 <= k < c.len() ==> ('a' <= #[trigger] c[k] && c[k] <= 'z') || ('0' <= c[k]
        && c[k] <= '9') || c[k] == '-'
}

/// A path segment that a relative path may not have: empty, `.` or `..`.
pub open spec fn bad_segment(seg: Seq<char>) -> bool {
    seg.len() == 0 || seg == seq!['.'] || seg == seq!['.', '.']
}

/// Whether `s` holds `c` anywhere.
pub open spec fn holds_char(s: Seq<char>, c: char) -> bool {
    exists|k: int| 0 <= k < s.len() && s[k] == c
}

/// Whether `s` begins with `prefix`.
pub open spec fn begins_with(s: Seq<char>, prefix: Seq<char>) -> bool {
    prefix.len() <= s.len() && s.subrange(0, prefix.len() as int) == prefix
}

/// A package name must be one lowercase module component.
pub open spec fn package_name_check(name: Seq<char>) -> Result<(), Seq<char>> {
    if valid_component(name) {
        Ok(())
    } else {
        Err("package metadata name `"@ + name + "` must be a lowercase module component"@)
    }
}

/// A public module name is the package name, or the package name, a slash, and more lowercase
/// components.
pub open spec fn module_name_check(name: Seq<char>, package: Seq<char>) -> Result<(), Seq<char>> {
    if name != package && !begins_with(name, package + "/"@) {
        Err("public module `"@ + name + "` must equal package `"@ + package + "` or begin `"@
            + package + "/`"@)
    } else if !(forall|k: int| 0 <= k < segments(name, '/').len() ==> valid_component(
        #[trigger] segments(name, '/')[k],
    )) {
        Err("public module `"@ + name + "` must contain only lowercase module components"@)
    } else {
        Ok(())
    }
}

/// A package-root-relative path: nonempty, not absolute, no backslash, and no empty, `.` or
/// `..` segment.
pub open spec fn relative_path_check(path: Seq<char>, context: Seq<char>) -> Result<(), Seq<char>> {
    if path.len() == 0 || path[0] == '/' || holds_char(path, '\\') || exists|k: int|
        0 <= k < segments(path, '/').len() && bad_segment(#[trigger] segments(path, '/')[k]) {
        Err(context + " must be a package-root-relative slash-separated path"@)
    } else {
        Ok(())
    }
}

/// The directory part of a slash-separated path: everything before its last slash, or nothing.
pub open spec fn parent_of(path: Seq<char>) -> Seq<char>
    decreases path.len(),
{
    if path.len() == 0 {
        Seq::empty()
    } else if path.last() == '/' {
        path.drop_last()
    } else {
        parent_of(path.drop_last())
    }
}

/// Where a package-local import `./rest` found in `source_path` points: `rest` beside the
/// importing source.
pub open spec fn local_source_path_spec(source_path: Seq<char>, import: Seq<char>) -> Result<
    Seq<char>,
    Seq<char>,
> {
    if !begins_with(import, "./"@) {
        Err("must begin with `./`"@)
    } else {
        let rest = import.subrange(2, import.len() as int);
        if rest.len() == 0 || holds_char(rest, '\\') || exists|k: int|
            0 <= k < segments(rest, '/').len() && bad_segment(#[trigger] segments(rest, '/')[k]) {
            Err("must be a non-empty slash-separated path without traversal"@)
        } else if parent_of(source_path).len() == 0 {
            Ok(rest)
        } else {
            Ok(parent_of(source_path) + "/"@ + rest)
        }
    }
}

/// The first position at or after `from` holding `c`.
fn find_char(s: &[char], c: char, from: usize) -> (r: Option<usize>)
    requires
        from <= s@.len(),
    ensures
        match r {
            Some(i) => char_index(s@, c, from as nat) == Some(i as nat),
            None => char_index(s@, c, from as nat) is None,
        },
{
    let mut i = from;
    while i < s.len()
        invariant
            from <= i <= s@.len(),
            char_index(s@, c, from as nat) == char_index(s@, c, i as nat),
        decreases s@.len() - i,
    {
        if s[i] == c {
            return Some(i);
        }
        i = i + 1;
    }
    None
}

/// The pieces of `s` between occurrences of `c`.
fn split_at_char(s: &[char], c: char) -> (pieces: Vec<Vec<char>>)
    ensures
        pieces@.len() == segments(s@, c).len(),
        forall|k: int| 0 <= k < pieces@.len() ==> #[trigger] pieces@[k]@ == segments(s@, c)[k],
{
    let n = s.len();
    let mut pieces: Vec<Vec<char>> = Vec::new();
    let mut start: usize = 0;
    loop
        invariant
            n == s@.len(),
            start <= n,
            pieces@.len() + segments_from(s@, c, start as nat).len() == segments(s@, c).len(),
            forall|k: int| 0 <= k < pieces@.len() ==> #[trigger] pieces@[k]@ == segments(s@, c)[k],
            forall|k: int|
                0 <= k < segments_from(s@, c, start as nat).len() ==> segments(s@, c)[pieces@.len()
                    + k] == #[trigger] segments_from(s@, c, start as nat)[k],
        decreases n - start,
    {
        let ghost rest = segments_from(s@, c, start as nat);
        let ghost before = pieces@.len();
        proof {
            lemma_char_index(s@, c, start as nat);
        }
        match find_char(s, c, start) {
            None => {
                let mut piece: Vec<char> = Vec::new();
                let mut i = start;
                while i < n
                    invariant
                        start <= i <= n == s@.len(),
                        piece@ == s@.subrange(start as int, i as int),
                    decreases n - i,
                {
                    piece.push(s[i]);
                    i = i + 1;
                    assert(piece@ =~= s@.subrange(start as int, i as int));
                }
                assert(rest == seq![s@.subrange(start as int, n as int)]);
                assert(rest[0] == piece@);
                pieces.push(piece);
                return pieces;
            },
            Some(i) => {
                let mut piece: Vec<char> = Vec::new();
                let mut k = start;
                while k < i
                    invariant
                        start <= k <= i < n == s@.len(),
                        piece@ == s@.subrange(start as int, k as int),
                    decreases i - k,
                {
                    piece.push(s[k]);
                    k = k + 1;
                    assert(piece@ =~= s@.subrange(start as int, k as int));
                }
                let ghost tail = segments_from(s@, c, (i + 1) as nat);
                assert(rest == seq![s@.subrange(start as int, i as int)] + tail);
                assert(rest[0] == piece@);
                assert forall|q: int| 0 <= q < tail.len() implies segments(s@, c)[before + 1 + q]
                    == #[trigger] tail[q] by {
                    assert(rest[q + 1] == tail[q]);
                }
                pieces.push(piece);
                start = i + 1;
            },
        }
    }
}

/// Whether a string is one lowercase module component.
pub fn is_valid_component(c: &[char]) -> (r: bool)
    ensures
        r == valid_component(c@),
{
    if c.len() == 0 || !('a' <= c[0] && c[0] <= 'z') {
        return false;
    }
    let mut k: usize = 1;
    while k < c.len()
        invariant
            1 <= k <= c@.len(),
            forall|q: int| 1 <= q < k ==> ('a' <= #[trigger] c@[q] && c@[q] <= 'z') || ('0' <= c@[q]
                && c@[q] <= '9') || c@[q] == '-',
        decreases c@.len() - k,
    {
        let x = c[k];
        if !(('a' <= x && x <= 'z') || ('0' <= x && x <= '9') || x == '-') {
            return false;
        }
        k = k + 1;
    }
    true
}

fn is_bad_segment(seg: &[char]) -> (r: bool)
    ensures
        r == bad_segment(seg@),
{
    if seg.len() == 0 {
        return true;
    }
    if seg.len() == 1 && seg[0] == '.' {
        assert(seg@ =~= seq!['.']);
        return true;
    }
    if seg.len() == 2 && seg[0] == '.' && seg[1] == '.' {
        assert(seg@ =~= seq!['.', '.']);
        return true;
    }
    if seg.len() == 1 {
        assert(seg@ != seq!['.']) by {
            assert(seg@[0] != seq!['.'][0]);
        }
    }
    if seg.len() == 2 {
        assert(seg@ != seq!['.', '.']) by {
            if seg@[0] != '.' {
                assert(seg@[0] != seq!['.', '.'][0]);
            } else {
                assert(seg@[1] != seq!['.', '.'][1]);
            }
        }
    }
    false
}

fn has_char(s: &[char], c: char) -> (r: bool)
    ensures
        r == holds_char(s@, c),
{
    let mut k: usize = 0;
    while k < s.len()
        invariant
            k <= s@.len(),
            forall|q: int| 0 <= q < k ==> s@[q] != c,
        decreases s@.len() - k,
    {
        if s[k] == c {
            return true;
        }
        k = k + 1;
    }
    false
}

fn starts_with_chars(s: &[char], prefix: &[char]) -> (r: bool)
    ensures
        r == begins_with(s@, prefix@),
{
    if prefix.len() > s.len() {
        return false;
    }
    let mut k: usize = 0;
    while k < prefix.len()
        invariant
            k <= prefix@.len() <= s@.len(),
            forall|q: int| 0 <= q < k ==> s@[q] == prefix@[q],
        decreases prefix@.len() - k,
    {
        if s[k] != prefix[k] {
            assert(s@.subrange(0, prefix@.len() as int)[k as int] != prefix@[k as int]);
            return false;
        }
        k = k + 1;
    }
    assert(s@.subrange(0, prefix@.len() as int) =~= prefix@);
    true
}

/// Whether some segment of `path` is empty, `.` or `..`.
fn any_bad_segment(path: &[char]) -> (r: bool)
    ensures
        r == exists|k: int| 0 <= k < segments(path@, '/').len() && bad_segment(
            #[trigger] segments(path@, '/')[k],
        ),
{
    let pieces = split_at_char(path, '/');
    let mut k: usize = 0;
    while k < pieces.len()
        invariant
            k <= pieces@.len() == segments(path@, '/').len(),
            forall|q: int| 0 <= q < pieces@.len() ==> #[trigger] pieces@[q]@ == segments(path@, '/')[q],
            forall|q: int| 0 <= q < k ==> !bad_segment(#[trigger] segments(path@, '/')[q]),
        decreases pieces@.len() - k,
    {
        if is_bad_segment(pieces[k].as_slice()) {
            assert(bad_segment(segments(path@, '/')[k as int]));
            return true;
        }
        k = k + 1;
    }
    false
}

/// An error in declared package metadata.
#[derive(Clone, Debug, PartialEq, Eq)]
pub struct PackageManifestError {
    message: String,
}

impl PackageManifestError {
    fn new(message: String) -> (e: PackageManifestError)
        ensures
            e.message() == message@,
    {
        PackageManifestError { message }
    }

    /// The description of the error.
    pub closed spec fn message(&self) -> Seq<char> {
        self.message@
    }

    /// The description of the error.
    pub fn text(&self) -> (t: &str)
        ensures
            t@ == self.message(),
    {
        self.message.as_str()
    }
}

/// An error in a resolved package catalog.
#[derive(Clone, Debug, PartialEq, Eq)]
pub struct PackageCatalogError {
    message: String,
}

impl PackageCatalogError {
    fn new(message: String) -> (e: PackageCatalogError)
        ensures
            e.message() == message@,
    {
        PackageCatalogError { message }
    }

    /// The description of the error.
    pub closed spec fn message(&self) -> Seq<char> {
        self.message@
    }

    /// The description of the error.
    pub fn text(&self) -> (t: &str)
        ensures
            t@ == self.message(),
    {
        self.message.as_str()
    }
}

/// A string made of three pieces.
fn concat3(a: &str, b: &str, c: &str) -> (s: String)
    ensures
        s@ == a@ + b@ + c@,
{
    let mut s = String::new();
    push_str(&mut s, a);
    push_str(&mut s, b);
    push_str(&mut s, c);
    assert(s@ =~= a@ + b@ + c@);
    s
}

/// Checks that a package name is one lowercase module component.
pub fn validate_package_name(name: &str) -> (r: Result<(), PackageManifestError>)
    ensures
        match package_name_check(name@) {
            Ok(()) => r is Ok,
            Err(m) => r matches Err(e) && e.message() == m,
        },
{
    let chars = chars_of(name);
    if is_valid_component(chars.as_slice()) {
        Ok(())
    } else {
        Err(PackageManifestError::new(concat3("package metadata name `", name, "` must be a lowercase module component")))
    }
}

/// Checks that a public module name lies under its package and is made of lowercase
/// components.
pub fn validate_module_name(name: &str, package: &str) -> (r: Result<(), PackageManifestError>)
    ensures
        match module_name_check(name@, package@) {
            Ok(()) => r is Ok,
            Err(m) => r matches Err(e) && e.message() == m,
        },
{
    let name_chars = chars_of(name);
    let mut prefix = String::new();
    push_str(&mut prefix, package);
    push_str(&mut prefix, "/");
    assert(prefix@ =~= package@ + "/"@);
    let prefix_chars = chars_of(prefix.as_str());
    if !str_equal(name, package) && !starts_with_chars(name_chars.as_slice(), prefix_chars.as_slice()) {
        let mut message = concat3("public module `", name, "` must equal package `");
        push_str(&mut message, package);
        push_str(&mut message, "` or begin `");
        push_str(&mut message, package);
        push_str(&mut message, "/`");
        assert(message@ =~= "public module `"@ + name@ + "` must equal package `"@ + package@ + "` or begin `"@ + package@ + "/`"@);
        return Err(PackageManifestError::new(message));
    }
    let pieces = split_at_char(name_chars.as_slice(), '/');
    let mut k: usize = 0;
    while k < pieces.len()
        invariant
            k <= pieces@.len() == segments(name@, '/').len(),
            name_chars@ == name@,
            !(name@ != package@ && !begins_with(name@, package@ + "/"@)),
            forall|q: int| 0 <= q < pieces@.len() ==> #[trigger] pieces@[q]@ == segments(name@, '/')[q],
            forall|q: int| 0 <= q < k ==> valid_component(#[trigger] segments(name@, '/')[q]),
        decreases pieces@.len() - k,
    {
        if !is_valid_component(pieces[k].as_slice()) {
            assert(!valid_component(segments(name@, '/')[k as int]));
            return Err(PackageManifestError::new(concat3("public module `", name, "` must contain only lowercase module components")));
        }
        k = k + 1;
    }
    Ok(())
}

/// Checks that a path is package-root-relative and slash-separated, without traversal.
pub fn validate_relative_path(path: &str, context: &str) -> (r: Result<(), PackageManifestError>)
    ensures
        match relative_path_check(path@, context@) {
            Ok(()) => r is Ok,
            Err(m) => r matches Err(e) && e.message() == m,
        },
{
    let chars = chars_of(path);
    if chars.len() == 0 || chars[0] == '/' || has_char(chars.as_slice(), '\\') || any_bad_segment(chars.as_slice()) {
        let mut message = context.to_string();
        push_str(&mut message, " must be a package-root-relative slash-separated path");
        return Err(PackageManifestError::new(message));
    }
    Ok(())
}

/// Resolves a package-local import `./rest` against the path of the source that makes it.
pub fn local_source_path(source_path: &str, import: &str) -> (r: Result<String, &'static str>)
    ensures
        match local_source_path_spec(source_path@, import@) {
            Ok(p) => r matches Ok(q) && q@ == p,
            Err(m) => r matches Err(e) && e@ == m,
        },
{
    let chars = chars_of(import);
    let dot_slash = chars_of("./");
    if !starts_with_chars(chars.as_slice(), dot_slash.as_slice()) {
        return Err("must begin with `./`");
    }
    proof {
        reveal_strlit("./");
    }
    let rest = string_from_range(chars.as_slice(), 2, chars.len());
    let rest_chars = chars_of(rest.as_str());
    if rest_chars.len() == 0 || has_char(rest_chars.as_slice(), '\\') || any_bad_segment(rest_chars.as_slice()) {
        return Err("must be a non-empty slash-separated path without traversal");
    }
    let source = chars_of(source_path);
    // The parent is everything before the last slash.
    let mut end = source.len();
    assert(source@.subrange(0, end as int) =~= source@);
    while end > 0 && source[end - 1] != '/'
        invariant
            end <= source@.len(),
            source@ == source_path@,
            parent_of(source@) == parent_of(source@.subrange(0, end as int)),
        decreases end,
    {
        proof {
            assert(source@.subrange(0, end as int).drop_last() =~= source@.subrange(0, end - 1));
        }
        end = end - 1;
    }
    let ghost prefix = source@.subrange(0, end as int);
    let parent_len: usize = if end == 0 { 0 } else { end - 1 };
    proof {
        if end == 0 {
            assert(prefix =~= Seq::<char>::empty());
        } else {
            assert(prefix.drop_last() =~= source@.subrange(0, parent_len as int));
        }
    }
    if parent_len == 0 {
        return Ok(rest);
    }
    let mut joined = string_from_range(source.as_slice(), 0, parent_len);
    push_str(&mut joined, "/");
    push_str(&mut joined, rest.as_str());
    Ok(joined)
}

/// Whether a catalog module is part of its package's public interface.
#[derive(Clone, Copy, Debug, PartialEq, Eq, Structural)]
pub enum CatalogModuleVisibility {
    /// A manifest-declared module whose name is part of the public package interface.
    Public,
    /// A package-local source with a package-scoped private identity.
    PackageLocal,
}

/// One source module of a resolved package catalog.
#[derive(Clone, Debug, PartialEq, Eq)]
pub struct CatalogModule {
    name: String,
    source: String,
    package: String,
    source_path: String,
    visibility: CatalogModuleVisibility,
}

/// The model of a catalog module.
pub struct CatalogModuleV {
    pub name: Seq<char>,
    pub source: Seq<char>,
    pub package: Seq<char>,
    pub source_path: Seq<char>,
    pub visibility: CatalogModuleVisibility,
}

impl View for CatalogModule {
    type V = CatalogModuleV;

    closed spec fn view(&self) -> CatalogModuleV {
        CatalogModuleV {
            name: self.name@,
            source: self.source@,
            package: self.package@,
            source_path: self.source_path@,
            visibility: self.visibility,
        }
    }
}

/// The check of a catalog module's provenance and identity.
pub open spec fn catalog_module_check(
    name: Seq<char>,
    package: Seq<char>,
    source_path: Seq<char>,
    visibility: CatalogModuleVisibility,
) -> Result<(), Seq<char>> {
    match package_name_check(package) {
        Err(m) => Err(m),
        Ok(()) => match relative_path_check(source_path, "catalog module source path"@) {
            Err(m) => Err(m),
            Ok(()) => match visibility {
                CatalogModuleVisibility::Public => match module_name_check(name, package) {
                    Err(m) => Err(m),
                    Ok(()) => if source_path != name + ".simi"@ {
                        Err("public catalog module `"@ + name + "` must use source path `"@
                            + (name + ".simi"@) + "`"@)
                    } else {
                        Ok(())
                    },
                },
                CatalogModuleVisibility::PackageLocal => {
                    let expected = "__simi_package_local__/"@ + package + "/"@ + source_path;
                    if name != expected {
                        Err("package-local catalog module identity `"@ + name + "` must equal `"@
                            + expected + "`"@)
                    } else {
                        Ok(())
                    }
                },
            },
        },
    }
}

impl CatalogModule {
    /// A catalog module, if its package name, source path and identity are canonical.
    pub fn new(
        name: String,
        source: String,
        package: String,
        source_path: String,
        visibility: CatalogModuleVisibility,
    ) -> (r: Result<CatalogModule, PackageCatalogError>)
        ensures
            match catalog_module_check(name@, package@, source_path@, visibility) {
                Ok(()) => r matches Ok(m) && m@ == (CatalogModuleV {
                    name: name@,
                    source: source@,
                    package: package@,
                    source_path: source_path@,
                    visibility,
                }),
                Err(msg) => r matches Err(e) && e.message() == msg,
            },
    {
        if let Err(e) = validate_package_name(package.as_str()) {
            return Err(PackageCatalogError::new(e.message));
        }
        if let Err(e) = validate_relative_path(source_path.as_str(), "catalog module source path") {
            return Err(PackageCatalogError::new(e.message));
        }
        match visibility {
            CatalogModuleVisibility::Public => {
                if let Err(e) = validate_module_name(name.as_str(), package.as_str()) {
                    return Err(PackageCatalogError::new(e.message));
                }
                let mut expected = name.clone();
                push_str(&mut expected, ".simi");
                if !str_equal(source_path.as_str(), expected.as_str()) {
                    let mut message = concat3("public catalog module `", name.as_str(), "` must use source path `");
                    push_str(&mut message, expected.as_str());
                    push_str(&mut message, "`");
                    return Err(PackageCatalogError::new(message));
                }
            },
            CatalogModuleVisibility::PackageLocal => {
                let mut expected = concat3("__simi_package_local__/", package.as_str(), "/");
                push_str(&mut expected, source_path.as_str());
                if !str_equal(name.as_str(), expected.as_str()) {
                    let mut message = concat3("package-local catalog module identity `", name.as_str(), "` must equal `");
                    push_str(&mut message, expected.as_str());
                    push_str(&mut message, "`");
                    return Err(PackageCatalogError::new(message));
                }
            },
        }
        Ok(CatalogModule { name, source, package, source_path, visibility })
    }

    /// The identity `require` uses.
    pub fn name(&self) -> (r: &str)
        ensures
            r@ == self@.name,
    {
        self.name.as_str()
    }

    /// The module's source text.
    pub fn source(&self) -> (r: &str)
        ensures
            r@ == self@.source,
    {
        self.source.as_str()
    }

    /// The package that supplied the module.
    pub fn package(&self) -> (r: &str)
        ensures
            r@ == self@.package,
    {
        self.package.as_str()
    }

    /// The module's package-root-relative source path.
    pub fn source_path(&self) -> (r: &str)
        ensures
            r@ == self@.source_path,
    {
        self.source_path.as_str()
    }

    /// Whether the module is public or package-local.
    pub fn visibility(&self) -> (r: CatalogModuleVisibility)
        ensures
            r == self@.visibility,
    {
        self.visibility
    }
}


/// A public module and its canonical source path.
#[derive(Clone, Debug, PartialEq, Eq)]
pub struct PackageModule {
    name: String,
    source_path: String,
}

impl View for PackageModule {
    type V = (Seq<char>, Seq<char>);

    closed spec fn view(&self) -> (Seq<char>, Seq<char>) {
        (self.name@, self.source_path@)
    }
}

impl PackageModule {
    /// The public module `name` of `package`, whose source is `name.simi`.
    pub fn new(name: String, package: &str) -> (r: Result<PackageModule, PackageManifestError>)
        ensures
            match module_name_check(name@, package@) {
                Ok(()) => r matches Ok(m) && m@ == (name@, name@ + ".simi"@),
                Err(msg) => r matches Err(e) && e.message() == msg,
            },
    {
        validate_module_name(name.as_str(), package)?;
        let mut source_path = name.clone();
        push_str(&mut source_path, ".simi");
        Ok(PackageModule { name, source_path })
    }

    /// The public module identity, such as `polars` or `polars/csv`.
    pub fn name(&self) -> (r: &str)
        ensures
            r@ == self@.0,
    {
        self.name.as_str()
    }

    /// The package-root-relative source path, such as `polars.simi` or `polars/csv.simi`.
    pub fn source_path(&self) -> (r: &str)
        ensures
            r@ == self@.1,
    {
        self.source_path.as_str()
    }
}

/// Whether `s` ends with `suffix`.
pub open spec fn ends_with_chars(s: Seq<char>, suffix: Seq<char>) -> bool {
    suffix.len() <= s.len() && s.subrange(s.len() - suffix.len(), s.len() as int) == suffix
}

/// The check of a native extension's manifest path.
pub open spec fn native_check(manifest_path: Seq<char>) -> Result<(), Seq<char>> {
    match relative_path_check(manifest_path, "package metadata native manifest"@) {
        Err(m) => Err(m),
        Ok(()) => if ends_with_chars(manifest_path, "Cargo.toml"@) {
            Ok(())
        } else {
            Err("package metadata native manifest must name a Cargo.toml file"@)
        },
    }
}

/// Metadata of a native extension: the path of its Cargo manifest. Nothing is built or loaded.
#[derive(Clone, Debug, PartialEq, Eq)]
pub struct NativePackage {
    manifest_path: String,
}

impl View for NativePackage {
    type V = Seq<char>;

    closed spec fn view(&self) -> Seq<char> {
        self.manifest_path@
    }
}

fn ends_with_text(s: &[char], suffix: &[char]) -> (r: bool)
    ensures
        r == ends_with_chars(s@, suffix@),
{
    if suffix.len() > s.len() {
        return false;
    }
    let n = s.len();
    let offset = n - suffix.len();
    let mut k: usize = 0;
    while k < suffix.len()
        invariant
            k <= suffix@.len(),
            n == s@.len(),
            offset + suffix@.len() == s@.len(),
            forall|q: int| 0 <= q < k ==> s@[offset + q] == suffix@[q],
        decreases suffix@.len() - k,
    {
        if s[offset + k] != suffix[k] {
            assert(s@.subrange(offset as int, s@.len() as int)[k as int] != suffix@[k as int]);
            return false;
        }
        k = k + 1;
    }
    assert(s@.subrange(offset as int, s@.len() as int) =~= suffix@);
    true
}

impl NativePackage {
    /// Native extension metadata, if its manifest path is relative and names a `Cargo.toml`.
    pub fn new(manifest_path: String) -> (r: Result<NativePackage, PackageManifestError>)
        ensures
            match native_check(manifest_path@) {
                Ok(()) => r matches Ok(n) && n@ == manifest_path@,
                Err(msg) => r matches Err(e) && e.message() == msg,
            },
    {
        validate_relative_path(manifest_path.as_str(), "package metadata native manifest")?;
        let chars = chars_of(manifest_path.as_str());
        let suffix = chars_of("Cargo.toml");
        if !ends_with_text(chars.as_slice(), suffix.as_slice()) {
            return Err(PackageManifestError::new(
                "package metadata native manifest must name a Cargo.toml file".to_string(),
            ));
        }
        Ok(NativePackage { manifest_path })
    }

    /// The package-root-relative path of the extension's Cargo manifest.
    pub fn manifest_path(&self) -> (r: &str)
        ensures
            r@ == self@,
    {
        self.manifest_path.as_str()
    }
}

/// The check of the declared modules from position `k` on: no name twice, each a public module
/// of the package.
pub open spec fn modules_check(modules: Seq<Seq<char>>, package: Seq<char>, k: nat) -> Result<
    (),
    Seq<char>,
>
    decreases modules.len() - k,
{
    if k >= modules.len() {
        Ok(())
    } else if exists|j: int| 0 <= j < k && modules[j] == modules[k as int] {
        Err("package metadata declares module `"@ + modules[k as int] + "` more than once"@)
    } else {
        match module_name_check(modules[k as int], package) {
            Err(m) => Err(m),
            Ok(()) => modules_check(modules, package, k + 1),
        }
    }
}

/// The check of package metadata: a valid name, a runtime revision, a nonempty list of
/// distinct public modules including the root module named like the package, and valid native
/// metadata if any.
pub open spec fn manifest_check(
    name: Seq<char>,
    simi: Seq<char>,
    modules: Seq<Seq<char>>,
    native: Option<Seq<char>>,
) -> Result<(), Seq<char>> {
    match package_name_check(name) {
        Err(m) => Err(m),
        Ok(()) => if simi.len() == 0 {
            Err("package metadata field `simi` must not be empty"@)
        } else if modules.len() == 0 {
            Err("package metadata field `modules` must not be empty"@)
        } else {
            match modules_check(modules, name, 0) {
                Err(m) => Err(m),
                Ok(()) => if !(exists|k: int| 0 <= k < modules.len() && modules[k] == name) {
                    Err("package metadata must export root module `"@ + name + "`"@)
                } else {
                    match native {
                        None => Ok(()),
                        Some(p) => native_check(p),
                    }
                },
            }
        },
    }
}

/// Package metadata: its name, the runtime revision it needs, its public modules, and optional
/// native extension metadata.
#[derive(Clone, Debug, PartialEq, Eq)]
pub struct PackageManifest {
    name: String,
    simi: String,
    modules: Vec<PackageModule>,
    native: Option<NativePackage>,
}

/// The model of package metadata.
pub struct PackageManifestV {
    pub name: Seq<char>,
    pub simi: Seq<char>,
    pub modules: Seq<(Seq<char>, Seq<char>)>,
    pub native: Option<Seq<char>>,
}

impl View for PackageManifest {
    type V = PackageManifestV;

    closed spec fn view(&self) -> PackageManifestV {
        PackageManifestV {
            name: self.name@,
            simi: self.simi@,
            modules: self.modules@.map_values(|m: PackageModule| m@),
            native: match self.native {
                Some(n) => Some(n@),
                None => None,
            },
        }
    }
}

impl PackageManifest {
    /// Package metadata from its declared fields, if they pass [`manifest_check`]; the modules
    /// keep their declared order.
    pub fn new(name: String, simi: String, modules: Vec<String>, native: Option<String>) -> (r:
        Result<PackageManifest, PackageManifestError>)
        ensures
            match manifest_check(
                name@,
                simi@,
                modules@.map_values(|m: String| m@),
                match native {
                    Some(p) => Some(p@),
                    None => None,
                },
            ) {
                Ok(()) => r matches Ok(m) && m@ == (PackageManifestV {
                    name: name@,
                    simi: simi@,
                    modules: modules@.map_values(|m: String| (m@, m@ + ".simi"@)),
                    native: match native {
                        Some(p) => Some(p@),
                        None => None,
                    },
                }),
                Err(msg) => r matches Err(e) && e.message() == msg,
            },
    {
        let ghost names = modules@.map_values(|m: String| m@);
        validate_package_name(name.as_str())?;
        if simi.as_str().is_empty() {
            return Err(PackageManifestError::new("package metadata field `simi` must not be empty".to_string()));
        }
        if modules.len() == 0 {
            return Err(PackageManifestError::new("package metadata field `modules` must not be empty".to_string()));
        }
        let mut declared: Vec<PackageModule> = Vec::new();
        let mut k: usize = 0;
        while k < modules.len()
            invariant
                k <= modules@.len(),
                names == modules@.map_values(|m: String| m@),
                package_name_check(name@) is Ok,
                simi@.len() > 0,
                modules@.len() > 0,
                modules_check(names, name@, 0) == modules_check(names, name@, k as nat),
                declared@.map_values(|m: PackageModule| m@) == names.take(k as int).map_values(
                    |m: Seq<char>| (m, m + ".simi"@),
                ),
            decreases modules@.len() - k,
        {
            let mut j: usize = 0;
            while j < k
                invariant
                    j <= k < modules@.len(),
                    names == modules@.map_values(|m: String| m@),
                    package_name_check(name@) is Ok,
                    simi@.len() > 0,
                    modules@.len() > 0,
                    modules_check(names, name@, 0) == modules_check(names, name@, k as nat),
                    forall|q: int| 0 <= q < j ==> names[q] != names[k as int],
                decreases k - j,
            {
                if str_equal(modules[j].as_str(), modules[k].as_str()) {
                    assert(names[j as int] == names[k as int]);
                    let message = concat3("package metadata declares module `", modules[k].as_str(), "` more than once");
                    return Err(PackageManifestError::new(message));
                }
                j = j + 1;
            }
            let module = PackageModule::new(modules[k].clone(), name.as_str())?;
            let ghost before = declared@.map_values(|m: PackageModule| m@);
            declared.push(module);
            proof {
                assert(names.take(k + 1) =~= names.take(k as int).push(names[k as int]));
                assert(declared@.map_values(|m: PackageModule| m@) =~= before.push(
                    (names[k as int], names[k as int] + ".simi"@),
                ));
                assert(names.take(k + 1).map_values(|m: Seq<char>| (m, m + ".simi"@)) =~= names.take(
                    k as int,
                ).map_values(|m: Seq<char>| (m, m + ".simi"@)).push((names[k as int], names[k as int] + ".simi"@)));
            }
            k = k + 1;
        }
        assert(names.take(k as int) =~= names);
        let mut has_root = false;
        let mut q: usize = 0;
        while q < modules.len()
            invariant
                q <= modules@.len(),
                names == modules@.map_values(|m: String| m@),
                has_root == exists|i: int| 0 <= i < q && #[trigger] names[i] == name@,
            decreases modules@.len() - q,
        {
            if str_equal(modules[q].as_str(), name.as_str()) {
                assert(names[q as int] == name@);
                has_root = true;
            } else {
                assert(names[q as int] != name@);
            }
            q = q + 1;
        }
        if !has_root {
            return Err(PackageManifestError::new(concat3("package metadata must export root module `", name.as_str(), "`")));
        }
        let native = match native {
            None => None,
            Some(path) => Some(NativePackage::new(path)?),
        };
        proof {
            assert(modules@.map_values(|m: String| (m@, m@ + ".simi"@)) =~= names.map_values(
                |m: Seq<char>| (m, m + ".simi"@),
            ));
        }
        Ok(PackageManifest { name, simi, modules: declared, native })
    }

    /// The package identity, also the name of its root module.
    pub fn name(&self) -> (r: &str)
        ensures
            r@ == self@.name,
    {
        self.name.as_str()
    }

    /// The Simi runtime revision the package declares.
    pub fn simi(&self) -> (r: &str)
        ensures
            r@ == self@.simi,
    {
        self.simi.as_str()
    }

    /// The public modules, in declared order.
    pub fn modules(&self) -> (r: &[PackageModule])
        ensures
            r@.map_values(|m: PackageModule| m@) == self@.modules,
    {
        self.modules.as_slice()
    }

    /// The native extension metadata, if declared.
    pub fn native(&self) -> (r: Option<&NativePackage>)
        ensures
            match r {
                Some(n) => self@.native == Some(n@),
                None => self@.native is None,
            },
    {
        match &self.native {
            Some(n) => Some(n),
            None => None,
        }
    }
}

} // verus!
