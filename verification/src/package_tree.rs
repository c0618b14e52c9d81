//! A package root's sources in canonical path order, and the ordered inputs of its source-tree
//! digest. Reading the files and finding the reachable local sources happen in the caller.
use vstd::prelude::*;
use vstd::utf8::encode_utf8;
use crate::package::{PackageManifest, PackageModule};
use crate::text::chars_of;

verus! {

/// Paths in lexicographic order of their characters' code points, which is also the byte order of
/// their UTF-8 encodings.
pub open spec fn path_less(a: Seq<char>, b: Seq<char>) -> bool
    decreases a.len(),
{
    if a.len() == 0 {
        b.len() > 0
    } else if b.len() == 0 {
        false
    } else if (a[0] as int) < (b[0] as int) {
        true
    } else if a[0] == b[0] {
        path_less(a.drop_first(), b.drop_first())
    } else {
        false
    }
}

proof fn lemma_path_less_asymmetric(a: Seq<char>, b: Seq<char>)
    ensures
        !(path_less(a, b) && path_less(b, a)),
    decreases a.len(),
{
    if a.len() > 0 && b.len() > 0 && a[0] == b[0] {
        lemma_path_less_asymmetric(a.drop_first(), b.drop_first());
    }
}

proof fn lemma_path_less_transitive(a: Seq<char>, b: Seq<char>, c: Seq<char>)
    requires
        path_less(a, b),
        path_less(b, c),
    ensures
        path_less(a, c),
    decreases a.len(),
{
    if a.len() > 0 && b.len() > 0 && c.len() > 0 && a[0] == b[0] && b[0] == c[0] {
        lemma_path_less_transitive(a.drop_first(), b.drop_first(), c.drop_first());
    }
}

proof fn lemma_path_less_total(a: Seq<char>, b: Seq<char>)
    ensures
        a == b || path_less(a, b) || path_less(b, a),
    decreases a.len(),
{
    if a.len() == 0 && b.len() == 0 {
        assert(a =~= b);
    } else if a.len() > 0 && b.len() > 0 && a[0] == b[0] {
        lemma_path_less_total(a.drop_first(), b.drop_first());
        if a.drop_first() == b.drop_first() {
            assert(a =~= seq![a[0]] + a.drop_first());
            assert(b =~= seq![b[0]] + b.drop_first());
        }
    }
}

/// "Not after" is transitive.
proof fn lemma_path_not_after(a: Seq<char>, b: Seq<char>, c: Seq<char>)
    requires
        !path_less(b, a),
        !path_less(c, b),
    ensures
        !path_less(c, a),
{
    lemma_path_less_total(a, b);
    lemma_path_less_total(b, c);
    lemma_path_less_asymmetric(a, c);
    if path_less(a, b) && path_less(b, c) {
        lemma_path_less_transitive(a, b, c);
    }
}

/// Whether `a` comes before `b` in path order.
fn paths_less(a: &str, b: &str) -> (r: bool)
    ensures
        r == path_less(a@, b@),
{
    let x = chars_of(a);
    let y = chars_of(b);
    let mut i: usize = 0;
    proof {
        assert(a@.skip(0) =~= a@);
        assert(b@.skip(0) =~= b@);
    }
    while i < x.len() && i < y.len()
        invariant
            i <= x@.len(),
            i <= y@.len(),
            x@ == a@,
            y@ == b@,
            path_less(a@, b@) == path_less(a@.skip(i as int), b@.skip(i as int)),
        decreases x@.len() - i,
    {
        if x[i] < y[i] {
            return true;
        }
        if x[i] != y[i] {
            return false;
        }
        proof {
            assert(a@.skip(i as int).drop_first() =~= a@.skip(i + 1));
            assert(b@.skip(i as int).drop_first() =~= b@.skip(i + 1));
        }
        i = i + 1;
    }
    i == x.len() && i < y.len()
}

/// Something kept under a package-root-relative path.
pub trait SourcePath {
    /// The path.
    spec fn path_view(&self) -> Seq<char>;

    /// The path.
    fn path(&self) -> (p: &str)
        ensures
            p@ == self.path_view();
}

/// Whether the items come in path order.
pub open spec fn sorted_by_path<T: SourcePath>(s: Seq<T>) -> bool {
    forall|i: int, j: int|
        0 <= i < j < s.len() ==> !path_less(#[trigger] s[j].path_view(), #[trigger] s[i].path_view())
}

/// Whether no two items share a path.
pub open spec fn distinct_paths<T: SourcePath>(s: Seq<T>) -> bool {
    forall|i: int, j: int|
        0 <= i < s.len() && 0 <= j < s.len() && i != j ==> #[trigger] s[i].path_view()
            != #[trigger] s[j].path_view()
}

/// Whether the items come in strictly ascending path order.
pub open spec fn strictly_sorted_by_path<T: SourcePath>(s: Seq<T>) -> bool {
    forall|i: int, j: int|
        0 <= i < j < s.len() ==> path_less(#[trigger] s[i].path_view(), #[trigger] s[j].path_view())
}

/// Path order with no path twice is strictly ascending.
proof fn lemma_strictly_sorted<T: SourcePath>(s: Seq<T>)
    requires
        sorted_by_path(s),
        distinct_paths(s),
    ensures
        strictly_sorted_by_path(s),
{
    assert forall|i: int, j: int| 0 <= i < j < s.len() implies path_less(
        #[trigger] s[i].path_view(),
        #[trigger] s[j].path_view(),
    ) by {
        lemma_path_less_total(s[i].path_view(), s[j].path_view());
    }
}

/// The items, each left out when an earlier item has its path.
pub open spec fn first_by_path<T: SourcePath>(s: Seq<T>) -> Seq<T>
    decreases s.len(),
{
    if s.len() == 0 {
        Seq::empty()
    } else {
        let rest = first_by_path(s.drop_last());
        if exists|j: int| 0 <= j < s.len() - 1 && #[trigger] s[j].path_view() == s.last().path_view() {
            rest
        } else {
            rest.push(s.last())
        }
    }
}

/// The items, each left out when an earlier item has its path.
fn keep_first_by_path<T: SourcePath>(items: Vec<T>) -> (kept: Vec<T>)
    ensures
        kept@ == first_by_path(items@),
        distinct_paths(kept@),
{
    let ghost all = items@;
    let mut rest = items;
    let mut kept: Vec<T> = Vec::new();
    let ghost mut i: int = 0;
    proof {
        assert(all.take(0) =~= Seq::<T>::empty());
        assert(all.skip(0) =~= all);
    }
    while rest.len() > 0
        invariant
            0 <= i <= all.len(),
            rest@ == all.skip(i),
            kept@ == first_by_path(all.take(i)),
            distinct_paths(kept@),
            forall|k: int| #![trigger kept@[k]] 0 <= k < kept@.len() ==> exists|j: int| 0 <= j < i && #[trigger] all[j] == kept@[k],
            forall|j: int| 0 <= j < i ==> exists|k: int|
                0 <= k < kept@.len() && #[trigger] kept@[k].path_view() == #[trigger] all[j].path_view(),
        decreases rest@.len(),
    {
        let item = rest.remove(0);
        proof {
            assert(item == all[i]);
            assert(rest@ =~= all.skip(i + 1));
            assert(all.take(i + 1).drop_last() =~= all.take(i));
            assert(all.take(i + 1).last() == all[i]);
        }
        let mut k: usize = 0;
        let mut seen = false;
        while k < kept.len()
            invariant_except_break
                !seen,
            invariant
                k <= kept@.len(),
                forall|q: int| 0 <= q < k ==> #[trigger] kept@[q].path_view() != item.path_view(),
            ensures
                k <= kept@.len(),
                seen ==> k < kept@.len() && kept@[k as int].path_view() == item.path_view(),
                !seen ==> forall|q: int| 0 <= q < kept@.len() ==> #[trigger] kept@[q].path_view() != item.path_view(),
            decreases kept@.len() - k,
        {
            if crate::text::str_equal(kept[k].path(), item.path()) {
                seen = true;
                break;
            }
            k = k + 1;
        }
        let ghost prefix = all.take(i + 1);
        let ghost kept0 = kept@;
        if seen {
            proof {
                let j = choose|j: int| 0 <= j < i && #[trigger] all[j] == kept@[k as int];
                assert(prefix[j].path_view() == prefix.last().path_view());
                assert(kept@ == first_by_path(prefix));
            }
        } else {
            proof {
                assert forall|j: int| 0 <= j < prefix.len() - 1 implies #[trigger] prefix[j].path_view()
                    != prefix.last().path_view() by {
                    assert(prefix[j] == all[j]);
                    let q = choose|q: int| 0 <= q < kept@.len() && #[trigger] kept@[q].path_view() == #[trigger] all[j].path_view();
                }
            }
            let ghost old_kept = kept@;
            kept.push(item);
            proof {
                assert(kept@ == first_by_path(prefix));
                assert forall|a: int, b: int|
                    0 <= a < kept@.len() && 0 <= b < kept@.len() && a != b implies #[trigger] kept@[a].path_view()
                        != #[trigger] kept@[b].path_view() by {
                    if a < old_kept.len() && b < old_kept.len() {
                        assert(kept@[a] == old_kept[a] && kept@[b] == old_kept[b]);
                    } else if a < old_kept.len() {
                        assert(kept@[a] == old_kept[a]);
                    } else {
                        assert(kept@[b] == old_kept[b]);
                    }
                }
                assert forall|q: int| #![trigger kept@[q]] 0 <= q < kept@.len() implies exists|j: int| 0 <= j < i + 1 && #[trigger] all[j] == kept@[q] by {
                    if q < old_kept.len() {
                        assert(kept@[q] == old_kept[q]);
                        let j = choose|j: int| 0 <= j < i && #[trigger] all[j] == old_kept[q];
                        assert(all[j] == kept@[q]);
                    } else {
                        assert(all[i] == kept@[q]);
                    }
                }
            }
        }
        proof {
            assert forall|j: int| 0 <= j < i + 1 implies exists|q: int|
                0 <= q < kept@.len() && #[trigger] kept@[q].path_view() == #[trigger] all[j].path_view() by {
                if j < i {
                    let q = choose|q: int| 0 <= q < kept0.len() && #[trigger] kept0[q].path_view() == #[trigger] all[j].path_view();
                    assert(kept@[q] == kept0[q]);
                    assert(kept@[q].path_view() == all[j].path_view());
                } else if seen {
                    assert(kept@[k as int].path_view() == all[j].path_view());
                } else {
                    assert(kept@[kept@.len() - 1] == all[j]);
                    assert(kept@[kept@.len() - 1].path_view() == all[j].path_view());
                }
            }
            i = i + 1;
        }
    }
    proof {
        assert(all.take(i) =~= all);
    }
    kept
}

/// The items in path order.
fn sort_by_path<T: SourcePath>(items: Vec<T>) -> (sorted: Vec<T>)
    ensures
        sorted@.to_multiset() == items@.to_multiset(),
        sorted_by_path(sorted@),
        distinct_paths(items@) ==> distinct_paths(sorted@),
{
    broadcast use vstd::multiset::group_multiset_axioms;
    broadcast use vstd::seq_lib::group_to_multiset_ensures;

    let mut rest = items;
    let mut sorted: Vec<T> = Vec::new();
    proof {
        vstd::multiset::lemma_multiset_empty_len(sorted@.to_multiset());
        assert(sorted@.to_multiset().add(rest@.to_multiset()) =~= items@.to_multiset());
    }
    while rest.len() > 0
        invariant
            sorted@.to_multiset().add(rest@.to_multiset()) == items@.to_multiset(),
            sorted_by_path(sorted@),
            distinct_paths(items@) ==> {
                &&& distinct_paths(sorted@)
                &&& distinct_paths(rest@)
                &&& forall|k: int, j: int| 0 <= k < sorted@.len() && 0 <= j < rest@.len()
                    ==> #[trigger] sorted@[k].path_view() != #[trigger] rest@[j].path_view()
            },
        decreases rest@.len(),
    {
        let ghost before = rest@;
        let item = rest.pop().unwrap();
        proof {
            assert(before =~= rest@.push(item));
            if distinct_paths(items@) {
                assert forall|k: int| 0 <= k < sorted@.len() implies #[trigger] sorted@[k].path_view()
                    != item.path_view() by {
                    assert(before[before.len() - 1] == item);
                }
                assert forall|j: int| 0 <= j < rest@.len() implies #[trigger] rest@[j].path_view()
                    != item.path_view() by {
                    assert(before[j] == rest@[j]);
                    assert(before[before.len() - 1] == item);
                }
            }
        }
        let mut p: usize = 0;
        while p < sorted.len()
            invariant
                p <= sorted@.len(),
                forall|k: int| 0 <= k < p ==> path_less(#[trigger] sorted@[k].path_view(), item.path_view()),
            ensures
                p <= sorted@.len(),
                forall|k: int| 0 <= k < p ==> path_less(#[trigger] sorted@[k].path_view(), item.path_view()),
                p < sorted@.len() ==> !path_less(sorted@[p as int].path_view(), item.path_view()),
            decreases sorted@.len() - p,
        {
            if !paths_less(sorted[p].path(), item.path()) {
                break;
            }
            p = p + 1;
        }
        let ghost old_sorted = sorted@;
        sorted.insert(p, item);
        proof {
            assert(sorted@ == old_sorted.insert(p as int, item));
            assert forall|i: int, j: int| 0 <= i < j < sorted@.len() implies !path_less(
                #[trigger] sorted@[j].path_view(),
                #[trigger] sorted@[i].path_view(),
            ) by {
                if j < p {
                } else if j == p {
                    lemma_path_less_asymmetric(sorted@[i].path_view(), item.path_view());
                } else if i > p {
                    assert(sorted@[i] == old_sorted[i - 1]);
                    assert(sorted@[j] == old_sorted[j - 1]);
                } else if i == p {
                    assert(sorted@[j] == old_sorted[j - 1]);
                    if j - 1 > p {
                        lemma_path_not_after(
                            item.path_view(),
                            old_sorted[p as int].path_view(),
                            old_sorted[j - 1].path_view(),
                        );
                    }
                } else {
                    assert(sorted@[j] == old_sorted[j - 1]);
                }
            }
            if distinct_paths(items@) {
                assert forall|i: int, j: int|
                    0 <= i < sorted@.len() && 0 <= j < sorted@.len() && i != j implies #[trigger] sorted@[i].path_view()
                        != #[trigger] sorted@[j].path_view() by {
                    if i < p && j < p {
                    } else if i > p && j > p {
                        assert(sorted@[i] == old_sorted[i - 1] && sorted@[j] == old_sorted[j - 1]);
                    } else if i == p {
                        if j > p {
                            assert(sorted@[j] == old_sorted[j - 1]);
                        }
                    } else if j == p {
                        if i > p {
                            assert(sorted@[i] == old_sorted[i - 1]);
                        }
                    } else if i < p {
                        assert(sorted@[j] == old_sorted[j - 1]);
                    } else {
                        assert(sorted@[i] == old_sorted[i - 1]);
                    }
                }
                assert forall|k: int, j: int| 0 <= k < sorted@.len() && 0 <= j < rest@.len()
                    implies #[trigger] sorted@[k].path_view() != #[trigger] rest@[j].path_view() by {
                    assert(rest@[j] == before[j]);
                    if k < p {
                    } else if k > p {
                        assert(sorted@[k] == old_sorted[k - 1]);
                    }
                }
            }
            vstd::seq_lib::to_multiset_insert(old_sorted, p as int, item);
            vstd::seq_lib::to_multiset_build(rest@, item);
            assert(sorted@.to_multiset() == old_sorted.to_multiset().insert(item));
            assert(before.to_multiset() == rest@.to_multiset().insert(item));
            assert(old_sorted.to_multiset().insert(item).add(rest@.to_multiset()) =~= old_sorted.to_multiset().add(
                rest@.to_multiset().insert(item),
            ));
            assert(sorted@.to_multiset().add(rest@.to_multiset()) =~= old_sorted.to_multiset().add(
                before.to_multiset(),
            ));
        }
    }
    proof {
        vstd::multiset::lemma_multiset_empty_len(rest@.to_multiset());
        assert(sorted@.to_multiset() =~= items@.to_multiset());
    }
    sorted
}

/// Whether items that share a path are the same item.
pub open spec fn paths_identify<T: SourcePath>(s: Seq<T>) -> bool {
    forall|i: int, j: int|
        0 <= i < s.len() && 0 <= j < s.len() && #[trigger] s[i].path_view() == #[trigger] s[j].path_view()
            ==> s[i] == s[j]
}

/// Path order leaves no choice: two arrangements in path order of the same sources, where sources
/// that share a path are the same, are the same sequence. So a tree's sources, and its digest
/// inputs, do not depend on the order in which the sources were found.
pub proof fn lemma_path_order_is_canonical<T: SourcePath>(a: Seq<T>, b: Seq<T>)
    requires
        sorted_by_path(a),
        sorted_by_path(b),
        a.to_multiset() == b.to_multiset(),
        paths_identify(a),
    ensures
        a == b,
    decreases a.len(),
{
    broadcast use vstd::seq_lib::group_to_multiset_ensures;

    vstd::seq_lib::to_multiset_len(a);
    vstd::seq_lib::to_multiset_len(b);
    if a.len() == 0 {
        assert(b.len() == 0);
        assert(a =~= b);
    } else {
        assert(b.len() == a.len());
        assert(a.to_multiset().count(a[0]) > 0);
        assert(b.contains(a[0]));
        let k = choose|k: int| 0 <= k < b.len() && b[k] == a[0];
        assert(b.to_multiset().count(b[0]) > 0);
        assert(a.contains(b[0]));
        let m = choose|m: int| 0 <= m < a.len() && a[m] == b[0];
        if k > 0 {
            assert(!path_less(b[k].path_view(), b[0].path_view()));
        }
        if m > 0 {
            assert(!path_less(a[m].path_view(), a[0].path_view()));
        }
        lemma_path_less_total(a[0].path_view(), b[0].path_view());
        assert(a[m].path_view() == a[0].path_view());
        assert(a[m] == a[0]);
        assert(a.remove(0) =~= a.drop_first());
        assert(b.remove(0) =~= b.drop_first());
        assert(a.drop_first().to_multiset() == b.drop_first().to_multiset());
        assert forall|i: int, j: int| 0 <= i < j < a.drop_first().len() implies !path_less(
            #[trigger] a.drop_first()[j].path_view(),
            #[trigger] a.drop_first()[i].path_view(),
        ) by {
            assert(a.drop_first()[j] == a[j + 1] && a.drop_first()[i] == a[i + 1]);
        }
        assert forall|i: int, j: int| 0 <= i < j < b.drop_first().len() implies !path_less(
            #[trigger] b.drop_first()[j].path_view(),
            #[trigger] b.drop_first()[i].path_view(),
        ) by {
            assert(b.drop_first()[j] == b[j + 1] && b.drop_first()[i] == b[i + 1]);
        }
        assert forall|i: int, j: int|
            0 <= i < a.drop_first().len() && 0 <= j < a.drop_first().len()
                && #[trigger] a.drop_first()[i].path_view() == #[trigger] a.drop_first()[j].path_view()
            implies a.drop_first()[i] == a.drop_first()[j] by {
            assert(a.drop_first()[j] == a[j + 1] && a.drop_first()[i] == a[i + 1]);
        }
        lemma_path_order_is_canonical(a.drop_first(), b.drop_first());
        assert(a[0] == b[0]);
        assert forall|i: int| 0 <= i < a.len() implies a[i] == b[i] by {
            if i > 0 {
                assert(a[i] == a.drop_first()[i - 1] && b[i] == b.drop_first()[i - 1]);
            }
        }
        assert(a =~= b);
    }
}

/// A declared public module and its exact UTF-8 source text.
#[derive(Clone, Debug, PartialEq, Eq)]
pub struct PackageSource {
    module: PackageModule,
    source: String,
}

impl PackageSource {
    /// The declared module with its source text.
    pub fn new(module: PackageModule, source: String) -> (s: PackageSource)
        ensures
            s.module_view() == module,
            s.source_view() == source@,
    {
        PackageSource { module, source }
    }

    /// The declared module.
    pub closed spec fn module_view(&self) -> PackageModule {
        self.module
    }

    /// The source text.
    pub closed spec fn source_view(&self) -> Seq<char> {
        self.source@
    }

    /// Declared public module identity and canonical source path.
    pub fn module(&self) -> (m: &PackageModule)
        ensures
            *m == self.module_view(),
    {
        &self.module
    }

    /// Exact UTF-8 source text read from the declared public module file.
    pub fn source(&self) -> (s: &str)
        ensures
            s@ == self.source_view(),
    {
        self.source.as_str()
    }
}

impl SourcePath for PackageSource {
    open spec fn path_view(&self) -> Seq<char> {
        self.module_view()@.1
    }

    fn path(&self) -> (p: &str) {
        self.module.source_path()
    }
}

/// A reachable private source unit loaded through a literal package-local import.
#[derive(Clone, Debug, PartialEq, Eq)]
pub struct LocalPackageSource {
    source_path: String,
    source: String,
}

impl LocalPackageSource {
    /// The source text found under a package-root-relative path.
    pub fn new(source_path: String, source: String) -> (s: LocalPackageSource)
        ensures
            s.path_view() == source_path@,
            s.source_view() == source@,
    {
        LocalPackageSource { source_path, source }
    }

    /// The source text.
    pub closed spec fn source_view(&self) -> Seq<char> {
        self.source@
    }

    /// The package-root-relative path.
    pub fn source_path(&self) -> (p: &str)
        ensures
            p@ == self.path_view(),
    {
        self.source_path.as_str()
    }

    /// The source text.
    pub fn source(&self) -> (s: &str)
        ensures
            s@ == self.source_view(),
    {
        self.source.as_str()
    }
}

impl SourcePath for LocalPackageSource {
    closed spec fn path_view(&self) -> Seq<char> {
        self.source_path@
    }

    fn path(&self) -> (p: &str) {
        self.source_path.as_str()
    }
}

/// One ordered path-and-byte input to a source-tree digest.
#[derive(Clone, Copy, Debug, PartialEq, Eq)]
pub struct PackageTreeFile<'a> {
    /// Package-root-relative slash-separated path.
    pub path: &'a str,
    /// Exact file bytes.
    pub bytes: &'a [u8],
}

/// A rejected static package-root layout.
#[derive(Clone, Debug, PartialEq, Eq)]
pub struct PackageTreeError {
    message: String,
}

impl PackageTreeError {
    /// An error with the given message.
    pub fn new(message: String) -> (e: PackageTreeError)
        ensures
            e.message() == message@,
    {
        PackageTreeError { message }
    }

    /// The message.
    pub closed spec fn message(&self) -> Seq<char> {
        self.message@
    }

    /// The message.
    pub fn text(&self) -> (t: &str)
        ensures
            t@ == self.message(),
    {
        self.message.as_str()
    }
}

/// A package root: its manifest, its declared public sources and its reachable local sources,
/// each group in strictly ascending path order.
#[derive(Debug, PartialEq, Eq)]
pub struct PackageTree {
    root: String,
    manifest: PackageManifest,
    manifest_source: String,
    modules: Vec<PackageSource>,
    local_sources: Vec<LocalPackageSource>,
}

impl PackageTree {
    /// Each group of sources comes in strictly ascending path order.
    #[verifier::type_invariant]
    spec fn ordered(self) -> bool {
        &&& strictly_sorted_by_path(self.modules@)
        &&& strictly_sorted_by_path(self.local_sources@)
    }

    /// The canonical root directory.
    pub closed spec fn root_view(&self) -> Seq<char> {
        self.root@
    }

    /// The parsed manifest.
    pub closed spec fn manifest_view(&self) -> PackageManifest {
        self.manifest
    }

    /// The manifest's source text.
    pub closed spec fn manifest_source_view(&self) -> Seq<char> {
        self.manifest_source@
    }

    /// The declared public sources.
    pub closed spec fn modules_view(&self) -> Seq<PackageSource> {
        self.modules@
    }

    /// The reachable local sources.
    pub closed spec fn local_sources_view(&self) -> Seq<LocalPackageSource> {
        self.local_sources@
    }

    /// A tree from what was read under `root`: of sources that share a path only the first is
    /// kept, and the sources are put in path order.
    pub fn from_sources(
        root: String,
        manifest: PackageManifest,
        manifest_source: String,
        modules: Vec<PackageSource>,
        local_sources: Vec<LocalPackageSource>,
    ) -> (t: PackageTree)
        ensures
            t.root_view() == root@,
            t.manifest_view() == manifest,
            t.manifest_source_view() == manifest_source@,
            t.modules_view().to_multiset() == first_by_path(modules@).to_multiset(),
            strictly_sorted_by_path(t.modules_view()),
            t.local_sources_view().to_multiset() == first_by_path(local_sources@).to_multiset(),
            strictly_sorted_by_path(t.local_sources_view()),
    {
        let modules = sort_by_path(keep_first_by_path(modules));
        let local_sources = sort_by_path(keep_first_by_path(local_sources));
        proof {
            lemma_strictly_sorted(modules@);
            lemma_strictly_sorted(local_sources@);
        }
        PackageTree { root, manifest, manifest_source, modules, local_sources }
    }

    /// Canonical package-root directory.
    pub fn root(&self) -> (r: &str)
        ensures
            r@ == self.root_view(),
    {
        self.root.as_str()
    }

    /// Parsed, restricted package metadata.
    pub fn manifest(&self) -> (m: &PackageManifest)
        ensures
            *m == self.manifest_view(),
    {
        &self.manifest
    }

    /// Declared public source units in canonical source-path order.
    pub fn modules(&self) -> (m: &[PackageSource])
        ensures
            m@ == self.modules_view(),
    {
        self.modules.as_slice()
    }

    /// Reachable package-local source units in canonical source-path order.
    pub fn local_sources(&self) -> (s: &[LocalPackageSource])
        ensures
            s@ == self.local_sources_view(),
    {
        self.local_sources.as_slice()
    }

    /// Deterministic source-tree digest inputs: the manifest first, then the public sources, then
    /// the local sources, each with its path and the UTF-8 bytes of its text.
    pub fn digest_inputs(&self) -> (files: Vec<PackageTreeFile<'_>>)
        ensures
            files@.len() == 1 + self.modules_view().len() + self.local_sources_view().len(),
            files@[0].path@ == "simi.package.simi"@,
            files@[0].bytes@ == encode_utf8(self.manifest_source_view()),
            forall|k: int| 0 <= k < self.modules_view().len() ==> {
                &&& (#[trigger] files@[1 + k]).path@ == self.modules_view()[k].path_view()
                &&& files@[1 + k].bytes@ == encode_utf8(self.modules_view()[k].source_view())
            },
            forall|k: int| 0 <= k < self.local_sources_view().len() ==> {
                &&& (#[trigger] files@[1 + self.modules_view().len() + k]).path@
                    == self.local_sources_view()[k].path_view()
                &&& files@[1 + self.modules_view().len() + k].bytes@ == encode_utf8(
                    self.local_sources_view()[k].source_view(),
                )
            },
            forall|i: int, j: int| 1 <= i < j < 1 + self.modules_view().len() ==> path_less(
                (#[trigger] files@[i]).path@,
                (#[trigger] files@[j]).path@,
            ),
            forall|i: int, j: int|
                1 + self.modules_view().len() <= i < j < files@.len() ==> path_less(
                    (#[trigger] files@[i]).path@,
                    (#[trigger] files@[j]).path@,
                ),
    {
        proof {
            use_type_invariant(self);
        }
        let mut files: Vec<PackageTreeFile<'_>> = Vec::new();
        files.push(PackageTreeFile { path: "simi.package.simi", bytes: self.manifest_source.as_str().as_bytes() });
        let mut i: usize = 0;
        while i < self.modules.len()
            invariant
                i <= self.modules@.len(),
                files@.len() == 1 + i,
                files@[0].path@ == "simi.package.simi"@,
                files@[0].bytes@ == encode_utf8(self.manifest_source@),
                forall|k: int| 0 <= k < i ==> {
                    &&& (#[trigger] files@[1 + k]).path@ == self.modules@[k].path_view()
                    &&& files@[1 + k].bytes@ == encode_utf8(self.modules@[k].source_view())
                },
            decreases self.modules@.len() - i,
        {
            let module = &self.modules[i];
            files.push(PackageTreeFile { path: module.path(), bytes: module.source().as_bytes() });
            i = i + 1;
        }
        let m = self.modules.len();
        let mut j: usize = 0;
        while j < self.local_sources.len()
            invariant
                j <= self.local_sources@.len(),
                m == self.modules@.len(),
                files@.len() == 1 + m + j,
                files@[0].path@ == "simi.package.simi"@,
                files@[0].bytes@ == encode_utf8(self.manifest_source@),
                forall|k: int| 0 <= k < m ==> {
                    &&& (#[trigger] files@[1 + k]).path@ == self.modules@[k].path_view()
                    &&& files@[1 + k].bytes@ == encode_utf8(self.modules@[k].source_view())
                },
                forall|k: int| 0 <= k < j ==> {
                    &&& (#[trigger] files@[1 + m + k]).path@ == self.local_sources@[k].path_view()
                    &&& files@[1 + m + k].bytes@ == encode_utf8(self.local_sources@[k].source_view())
                },
            decreases self.local_sources@.len() - j,
        {
            let source = &self.local_sources[j];
            files.push(PackageTreeFile { path: source.path(), bytes: source.source().as_bytes() });
            j = j + 1;
        }
        proof {
            assert forall|a: int, b: int| 1 <= a < b < 1 + m implies path_less(
                (#[trigger] files@[a]).path@,
                (#[trigger] files@[b]).path@,
            ) by {
                assert(files@[1 + (a - 1)].path@ == self.modules@[a - 1].path_view());
                assert(files@[1 + (b - 1)].path@ == self.modules@[b - 1].path_view());
            }
            assert forall|a: int, b: int| 1 + m <= a < b < files@.len() implies path_less(
                (#[trigger] files@[a]).path@,
                (#[trigger] files@[b]).path@,
            ) by {
                assert(files@[1 + m + (a - 1 - m)].path@ == self.local_sources@[a - 1 - m].path_view());
                assert(files@[1 + m + (b - 1 - m)].path@ == self.local_sources@[b - 1 - m].path_view());
            }
        }
        files
    }
}

} // verus!
