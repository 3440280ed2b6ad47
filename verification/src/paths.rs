use crate::text::{chars_equal, chars_of, copy_range, string_of};
use vstd::prelude::*;

verus! {

/// One component of a path.
#[derive(Debug, Clone, PartialEq, Eq)]
pub enum PathPart {
    /// A volume or drive prefix, as written.
    Prefix(String),
    /// The root directory.
    Root,
    /// The current directory, `.`: only at the start of a path.
    Current,
    /// The parent directory, `..`.
    Parent,
    /// A file or directory name.
    Normal(String),
}

/// A component as a rank and a text: 0 for a prefix, 1 for the root, 2 for `.`, 3 for `..`, 4
/// for a name. Components are ordered by rank, and within a rank by text.
pub type PartModel = (int, Seq<char>);

impl View for PathPart {
    type V = PartModel;

    open spec fn view(&self) -> PartModel {
        match self {
            PathPart::Prefix(s) => (0int, s@),
            PathPart::Root => (1int, Seq::empty()),
            PathPart::Current => (2int, Seq::empty()),
            PathPart::Parent => (3int, Seq::empty()),
            PathPart::Normal(s) => (4int, s@),
        }
    }
}

/// A path as the sequence of its components.
#[derive(Debug, Clone, PartialEq, Eq)]
pub struct FilePath {
    pub parts: Vec<PathPart>,
}

impl View for FilePath {
    type V = Seq<PartModel>;

    open spec fn view(&self) -> Seq<PartModel> {
        self.parts@.map_values(|p: PathPart| p@)
    }
}

/// `a` comes before `b`, character by character; a text comes after each of its own beginnings.
pub open spec fn text_less(a: Seq<char>, b: Seq<char>) -> bool
    decreases a.len(),
{
    if b.len() == 0 {
        false
    } else if a.len() == 0 {
        true
    } else if a[0] != b[0] {
        a[0] < b[0]
    } else {
        text_less(a.drop_first(), b.drop_first())
    }
}

/// `a` comes before `b`: by rank, and within a rank by text.
pub open spec fn part_less(a: PartModel, b: PartModel) -> bool {
    a.0 < b.0 || (a.0 == b.0 && text_less(a.1, b.1))
}

/// `a` comes before `b`, component by component; a path comes after each of its own beginnings.
pub open spec fn path_less(a: Seq<PartModel>, b: Seq<PartModel>) -> bool
    decreases a.len(),
{
    if b.len() == 0 {
        false
    } else if a.len() == 0 {
        true
    } else if a[0] != b[0] {
        part_less(a[0], b[0])
    } else {
        path_less(a.drop_first(), b.drop_first())
    }
}

/// The path without its last component; none for the empty path and for one that ends in the
/// root or a prefix.
pub open spec fn parent_of(p: Seq<PartModel>) -> Option<Seq<PartModel>> {
    if p.len() == 0 || p.last().0 <= 1 {
        None
    } else {
        Some(p.drop_last())
    }
}

/// The last component, where it is a name.
pub open spec fn file_name_of(p: Seq<PartModel>) -> Option<Seq<char>> {
    if p.len() > 0 && p.last().0 == 4 {
        Some(p.last().1)
    } else {
        None
    }
}

/// The position of the last dot of `name`; -1 where it has none.
pub open spec fn last_dot(name: Seq<char>) -> int
    decreases name.len(),
{
    if name.len() == 0 {
        -1
    } else if name.last() == '.' {
        name.len() - 1
    } else {
        last_dot(name.drop_last())
    }
}

/// The name without its extension: what stands before the last dot, unless that dot is the
/// first character or there is none.
pub open spec fn stem_of(name: Seq<char>) -> Seq<char> {
    if last_dot(name) <= 0 {
        name
    } else {
        name.take(last_dot(name))
    }
}

/// The extension of a name: what follows its last dot, unless that dot is the first character
/// or there is none.
pub open spec fn extension_of(name: Seq<char>) -> Option<Seq<char>> {
    if last_dot(name) <= 0 {
        None
    } else {
        Some(name.skip(last_dot(name) + 1))
    }
}

/// The stem of the file name of a path.
pub open spec fn file_stem_of(p: Seq<PartModel>) -> Option<Seq<char>> {
    match file_name_of(p) {
        Some(name) => Some(stem_of(name)),
        None => None,
    }
}

/// The extension of the file name of a path.
pub open spec fn path_extension_of(p: Seq<PartModel>) -> Option<Seq<char>> {
    match file_name_of(p) {
        Some(name) => extension_of(name),
        None => None,
    }
}

/// `p` does not start at a root or a prefix.
pub open spec fn is_relative(p: Seq<PartModel>) -> bool {
    p.len() == 0 || p[0].0 >= 2
}

/// `b` taken from `a`: the components of `a`, then those of `b` but for a leading `.`; `b`
/// alone where `a` is empty or `b` starts at a root or a prefix.
pub open spec fn joined(a: Seq<PartModel>, b: Seq<PartModel>) -> Seq<PartModel> {
    if a.len() == 0 || !is_relative(b) {
        b
    } else if b.len() > 0 && b[0].0 == 2 {
        a + b.drop_first()
    } else {
        a + b
    }
}

/// The path that a file name stands for: one name, or `.`, `..` or nothing.
pub open spec fn name_path(name: Seq<char>) -> Seq<PartModel> {
    if name.len() == 0 {
        Seq::empty()
    } else if name == seq!['.'] {
        seq![(2int, Seq::<char>::empty())]
    } else if name == seq!['.', '.'] {
        seq![(3int, Seq::<char>::empty())]
    } else {
        seq![(4int, name)]
    }
}

/// The components of `base` are the first components of `p`.
pub open spec fn starts_with(p: Seq<PartModel>, base: Seq<PartModel>) -> bool {
    base.len() <= p.len() && p.take(base.len() as int) == base
}

/// `p` without its beginning `base`.
pub open spec fn stripped_prefix(p: Seq<PartModel>, base: Seq<PartModel>) -> Option<
    Seq<PartModel>,
> {
    if starts_with(p, base) {
        Some(p.skip(base.len() as int))
    } else {
        None
    }
}

/// Whether `a` comes before `b`.
pub fn text_precedes(a: &Vec<char>, b: &Vec<char>) -> (r: bool)
    ensures
        r == text_less(a@, b@),
{
    let mut i: usize = 0;
    assert(a@.skip(0) == a@ && b@.skip(0) == b@);
    while i < a.len() && i < b.len() && a[i] == b[i]
        invariant
            i <= a.len(),
            i <= b.len(),
            text_less(a@, b@) == text_less(a@.skip(i as int), b@.skip(i as int)),
        decreases a.len() - i,
    {
        assert(a@.skip(i as int).drop_first() == a@.skip(i + 1));
        assert(b@.skip(i as int).drop_first() == b@.skip(i + 1));
        i += 1;
    }
    if i >= b.len() {
        false
    } else if i >= a.len() {
        true
    } else {
        a[i] < b[i]
    }
}

impl PathPart {
    /// The rank of a component.
    pub open spec fn rank(self) -> int {
        self@.0
    }

    fn rank_of(&self) -> (r: u8)
        ensures
            r == self@.0,
    {
        match self {
            PathPart::Prefix(_) => 0,
            PathPart::Root => 1,
            PathPart::Current => 2,
            PathPart::Parent => 3,
            PathPart::Normal(_) => 4,
        }
    }

    fn text_chars(&self) -> (out: Vec<char>)
        ensures
            out@ == self@.1,
    {
        match self {
            PathPart::Prefix(s) => chars_of(s.as_str()),
            PathPart::Normal(s) => chars_of(s.as_str()),
            _ => Vec::new(),
        }
    }

    /// A copy.
    pub fn duplicate(&self) -> (out: PathPart)
        ensures
            out == *self,
    {
        match self {
            PathPart::Prefix(s) => PathPart::Prefix(s.clone()),
            PathPart::Root => PathPart::Root,
            PathPart::Current => PathPart::Current,
            PathPart::Parent => PathPart::Parent,
            PathPart::Normal(s) => PathPart::Normal(s.clone()),
        }
    }

    /// Whether the two are the same component.
    pub fn same_as(&self, other: &PathPart) -> (r: bool)
        ensures
            r == (self@ == other@),
    {
        self.rank_of() == other.rank_of() && chars_equal(&self.text_chars(), &other.text_chars())
    }

    /// Whether this component comes before `other`.
    pub fn precedes(&self, other: &PathPart) -> (r: bool)
        ensures
            r == part_less(self@, other@),
    {
        let a = self.rank_of();
        let b = other.rank_of();
        a < b || (a == b && text_precedes(&self.text_chars(), &other.text_chars()))
    }
}

/// The path that a list of components stands for.
pub open spec fn models(parts: Seq<PathPart>) -> Seq<PartModel> {
    parts.map_values(|p: PathPart| p@)
}

fn copy_parts(parts: &Vec<PathPart>, from: usize, to: usize) -> (out: Vec<PathPart>)
    requires
        from <= to <= parts.len(),
    ensures
        out@ == parts@.subrange(from as int, to as int),
{
    let mut out: Vec<PathPart> = Vec::new();
    let mut i: usize = from;
    while i < to
        invariant
            from <= i <= to <= parts.len(),
            out@ == parts@.subrange(from as int, i as int),
        decreases to - i,
    {
        out.push(parts[i].duplicate());
        i += 1;
    }
    out
}

fn dot_position(name: &Vec<char>) -> (out: Option<usize>)
    ensures
        match out {
            Some(p) => last_dot(name@) == p && p < name.len(),
            None => last_dot(name@) == -1,
        },
{
    let mut end: usize = name.len();
    assert(name@.take(end as int) == name@);
    while end > 0
        invariant
            end <= name.len(),
            last_dot(name@) == last_dot(name@.take(end as int)),
        decreases end,
    {
        if name[end - 1] == '.' {
            return Some(end - 1);
        }
        assert(name@.take(end as int).drop_last() == name@.take(end - 1));
        end -= 1;
    }
    None
}

impl FilePath {
    /// The empty path.
    pub fn new() -> (out: FilePath)
        ensures
            out@ == Seq::<PartModel>::empty(),
    {
        let out = FilePath { parts: Vec::new() };
        assert(out@ =~= Seq::<PartModel>::empty());
        out
    }

    /// A copy.
    pub fn duplicate(&self) -> (out: FilePath)
        ensures
            out@ == self@,
    {
        let parts = copy_parts(&self.parts, 0, self.parts.len());
        assert(parts@ == self.parts@);
        FilePath { parts }
    }

    /// Whether the path has no component.
    pub fn is_empty(&self) -> (r: bool)
        ensures
            r == (self@.len() == 0),
    {
        self.parts.len() == 0
    }

    /// The number of components.
    pub fn component_count(&self) -> (n: usize)
        ensures
            n == self@.len(),
    {
        self.parts.len()
    }

    /// The path without its last component.
    pub fn parent(&self) -> (out: Option<FilePath>)
        ensures
            match out {
                Some(p) => parent_of(self@) == Some(p@),
                None => parent_of(self@) is None,
            },
    {
        let n = self.parts.len();
        if n == 0 {
            return None;
        }
        match &self.parts[n - 1] {
            PathPart::Prefix(_) => None,
            PathPart::Root => None,
            _ => {
                let out = FilePath { parts: copy_parts(&self.parts, 0, n - 1) };
                assert(out@ =~= self@.drop_last());
                Some(out)
            },
        }
    }

    /// The last component, where it is a name.
    pub fn file_name(&self) -> (out: Option<String>)
        ensures
            match out {
                Some(name) => file_name_of(self@) == Some(name@),
                None => file_name_of(self@) is None,
            },
    {
        let n = self.parts.len();
        if n == 0 {
            return None;
        }
        match &self.parts[n - 1] {
            PathPart::Normal(name) => Some(name.clone()),
            _ => None,
        }
    }

    /// The file name without its extension.
    pub fn file_stem(&self) -> (out: Option<String>)
        ensures
            match out {
                Some(stem) => file_stem_of(self@) == Some(stem@),
                None => file_stem_of(self@) is None,
            },
    {
        match self.file_name() {
            Some(name) => {
                let chars = chars_of(name.as_str());
                match dot_position(&chars) {
                    Some(p) => {
                        if p == 0 {
                            Some(name)
                        } else {
                            Some(string_of(&copy_range(&chars, 0, p)))
                        }
                    },
                    None => Some(name),
                }
            },
            None => None,
        }
    }

    /// The extension of the file name.
    pub fn extension(&self) -> (out: Option<String>)
        ensures
            match out {
                Some(ext) => path_extension_of(self@) == Some(ext@),
                None => path_extension_of(self@) is None,
            },
    {
        match self.file_name() {
            Some(name) => {
                let chars = chars_of(name.as_str());
                match dot_position(&chars) {
                    Some(p) => {
                        if p == 0 {
                            None
                        } else {
                            Some(string_of(&copy_range(&chars, p + 1, chars.len())))
                        }
                    },
                    None => None,
                }
            },
            None => None,
        }
    }

    /// `other` taken from this path.
    pub fn join(&self, other: &FilePath) -> (out: FilePath)
        ensures
            out@ == joined(self@, other@),
    {
        if self.parts.len() == 0 {
            return other.duplicate();
        }
        let mut skip: usize = 0;
        if other.parts.len() > 0 {
            match &other.parts[0] {
                PathPart::Prefix(_) => { return other.duplicate(); },
                PathPart::Root => { return other.duplicate(); },
                PathPart::Current => {
                    skip = 1;
                },
                _ => {},
            }
        }
        let mut parts = copy_parts(&self.parts, 0, self.parts.len());
        let mut i: usize = skip;
        assert(parts@ == self.parts@);
        assert(other.parts@.subrange(skip as int, i as int) == Seq::<PathPart>::empty());
        while i < other.parts.len()
            invariant
                skip <= i <= other.parts.len(),
                parts@ == self.parts@ + other.parts@.subrange(skip as int, i as int),
            decreases other.parts.len() - i,
        {
            parts.push(other.parts[i].duplicate());
            assert(other.parts@.subrange(skip as int, i as int).push(other.parts@[i as int])
                == other.parts@.subrange(skip as int, i + 1));
            i += 1;
        }
        let out = FilePath { parts };
        proof {
            assert(other.parts@.subrange(skip as int, other.parts.len() as int) == other.parts@.skip(
                skip as int,
            ));
            if skip == 1 {
                assert(out@ =~= self@ + other@.drop_first());
            } else {
                assert(other.parts@.skip(0) == other.parts@);
                assert(out@ =~= self@ + other@);
            }
        }
        out
    }

    /// The path of the file or directory `name` in this directory.
    pub fn join_name(&self, name: &str) -> (out: FilePath)
        ensures
            out@ == joined(self@, name_path(name@)),
    {
        let chars = chars_of(name);
        let mut tail = FilePath::new();
        if chars.len() == 0 {
        } else if chars.len() == 1 && chars[0] == '.' {
            tail.parts.push(PathPart::Current);
            assert(chars@ =~= seq!['.']);
            assert(tail@ =~= name_path(name@));
        } else if chars.len() == 2 && chars[0] == '.' && chars[1] == '.' {
            tail.parts.push(PathPart::Parent);
            assert(chars@ =~= seq!['.', '.']);
            assert(tail@ =~= name_path(name@));
        } else {
            tail.parts.push(PathPart::Normal(string_of(&chars)));
            assert(chars@ != seq!['.']) by {
                if chars@ == seq!['.'] {
                    assert(chars@.len() == 1 && chars@[0] == '.');
                }
            }
            assert(chars@ != seq!['.', '.']) by {
                if chars@ == seq!['.', '.'] {
                    assert(chars@.len() == 2 && chars@[0] == '.' && chars@[1] == '.');
                }
            }
            assert(tail@ =~= name_path(name@));
        }
        self.join(&tail)
    }

    /// Whether the two are the same path.
    pub fn same_as(&self, other: &FilePath) -> (r: bool)
        ensures
            r == (self@ == other@),
    {
        if self.parts.len() != other.parts.len() {
            assert(self@.len() != other@.len());
            return false;
        }
        let mut i: usize = 0;
        while i < self.parts.len()
            invariant
                i <= self.parts.len(),
                self.parts.len() == other.parts.len(),
                forall|j: int| 0 <= j < i ==> self@[j] == other@[j],
            decreases self.parts.len() - i,
        {
            if !self.parts[i].same_as(&other.parts[i]) {
                assert(self@[i as int] != other@[i as int]);
                return false;
            }
            i += 1;
        }
        assert(self@ =~= other@);
        true
    }

    /// Whether the components of `base` are the first components of this path.
    pub fn starts_with(&self, base: &FilePath) -> (r: bool)
        ensures
            r == starts_with(self@, base@),
    {
        if base.parts.len() > self.parts.len() {
            return false;
        }
        let mut i: usize = 0;
        while i < base.parts.len()
            invariant
                i <= base.parts.len() <= self.parts.len(),
                forall|j: int| 0 <= j < i ==> self@[j] == base@[j],
            decreases base.parts.len() - i,
        {
            if !self.parts[i].same_as(&base.parts[i]) {
                assert(self@.take(base@.len() as int)[i as int] != base@[i as int]);
                return false;
            }
            i += 1;
        }
        assert(self@.take(base@.len() as int) =~= base@);
        true
    }

    /// This path without its beginning `base`; none where it does not begin so.
    pub fn strip_prefix(&self, base: &FilePath) -> (out: Option<FilePath>)
        ensures
            match out {
                Some(rest) => stripped_prefix(self@, base@) == Some(rest@),
                None => stripped_prefix(self@, base@) is None,
            },
    {
        if !self.starts_with(base) {
            return None;
        }
        let out = FilePath { parts: copy_parts(&self.parts, base.parts.len(), self.parts.len()) };
        assert(out@ =~= self@.skip(base@.len() as int));
        Some(out)
    }

    /// Whether this path comes before `other`.
    pub fn precedes(&self, other: &FilePath) -> (r: bool)
        ensures
            r == path_less(self@, other@),
    {
        let mut i: usize = 0;
        assert(self@.skip(0) == self@ && other@.skip(0) == other@);
        while i < self.parts.len() && i < other.parts.len() && self.parts[i].same_as(
            &other.parts[i],
        )
            invariant
                i <= self.parts.len(),
                i <= other.parts.len(),
                path_less(self@, other@) == path_less(self@.skip(i as int), other@.skip(i as int)),
            decreases self.parts.len() - i,
        {
            assert(self@.skip(i as int).drop_first() == self@.skip(i + 1));
            assert(other@.skip(i as int).drop_first() == other@.skip(i + 1));
            i += 1;
        }
        if i >= other.parts.len() {
            false
        } else if i >= self.parts.len() {
            true
        } else {
            self.parts[i].precedes(&other.parts[i])
        }
    }
}

/// The paths of a list, as sequences of components.
pub open spec fn path_models(list: Seq<FilePath>) -> Seq<Seq<PartModel>> {
    list.map_values(|p: FilePath| p@)
}

/// The first position at or after `i` of a path of `list` that comes after `p`; the length of
/// `list` where there is none.
pub open spec fn insert_position(list: Seq<Seq<PartModel>>, p: Seq<PartModel>, i: int) -> int
    decreases list.len() - i,
{
    if i < 0 || i >= list.len() || path_less(p, list[i]) {
        i
    } else {
        insert_position(list, p, i + 1)
    }
}

/// `list` with `p` put before the first path that comes after it.
pub open spec fn inserted(list: Seq<Seq<PartModel>>, p: Seq<PartModel>) -> Seq<Seq<PartModel>> {
    list.insert(insert_position(list, p, 0), p)
}

/// Puts `path` into `list`, before the first path that comes after it.
pub fn insert_in_order(list: &mut Vec<FilePath>, path: FilePath)
    ensures
        path_models(final(list)@) == inserted(path_models(old(list)@), path@),
{
    let mut i: usize = 0;
    while i < list.len() && !path.precedes(&list[i])
        invariant
            i <= list.len(),
            *list == *old(list),
            insert_position(path_models(list@), path@, 0) == insert_position(
                path_models(list@),
                path@,
                i as int,
            ),
        decreases list.len() - i,
    {
        i += 1;
    }
    list.insert(i, path);
    assert(path_models(list@) =~= path_models(old(list)@).insert(i as int, path@));
}


/// No text comes before itself.
pub proof fn lemma_text_less_irreflexive(a: Seq<char>)
    ensures
        !text_less(a, a),
    decreases a.len(),
{
    if a.len() > 0 {
        lemma_text_less_irreflexive(a.drop_first());
    }
}

/// The order of texts is transitive.
pub proof fn lemma_text_less_transitive(a: Seq<char>, b: Seq<char>, c: Seq<char>)
    requires
        text_less(a, b),
        text_less(b, c),
    ensures
        text_less(a, c),
    decreases a.len(),
{
    if a.len() > 0 && b.len() > 0 && c.len() > 0 && a[0] == b[0] && b[0] == c[0] {
        lemma_text_less_transitive(a.drop_first(), b.drop_first(), c.drop_first());
    }
}

/// No component comes before itself.
pub proof fn lemma_part_less_irreflexive(a: PartModel)
    ensures
        !part_less(a, a),
{
    lemma_text_less_irreflexive(a.1);
}

/// The order of components is transitive.
pub proof fn lemma_part_less_transitive(a: PartModel, b: PartModel, c: PartModel)
    requires
        part_less(a, b),
        part_less(b, c),
    ensures
        part_less(a, c),
{
    if a.0 == b.0 && b.0 == c.0 {
        lemma_text_less_transitive(a.1, b.1, c.1);
    }
}

/// No path comes before itself.
pub proof fn lemma_path_less_irreflexive(a: Seq<PartModel>)
    ensures
        !path_less(a, a),
    decreases a.len(),
{
    if a.len() > 0 {
        lemma_path_less_irreflexive(a.drop_first());
    }
}

/// The order of paths is transitive.
pub proof fn lemma_path_less_transitive(a: Seq<PartModel>, b: Seq<PartModel>, c: Seq<PartModel>)
    requires
        path_less(a, b),
        path_less(b, c),
    ensures
        path_less(a, c),
    decreases a.len(),
{
    if a.len() > 0 && b.len() > 0 && c.len() > 0 {
        if a[0] != b[0] {
            if b[0] != c[0] {
                lemma_part_less_transitive(a[0], b[0], c[0]);
                lemma_part_less_irreflexive(a[0]);
            }
        } else if b[0] == c[0] {
            lemma_path_less_transitive(a.drop_first(), b.drop_first(), c.drop_first());
        }
    }
}

/// No path of `list` comes before a path that stands earlier in it.
pub open spec fn is_sorted(list: Seq<Seq<PartModel>>) -> bool {
    forall|i: int, j: int| 0 <= i < j < list.len() ==> !path_less(#[trigger] list[j], #[trigger] list[i])
}

/// The place of a path in a list is the first one after which a later path stands.
pub proof fn lemma_insert_position_is_first(list: Seq<Seq<PartModel>>, p: Seq<PartModel>, i: int)
    requires
        0 <= i <= list.len(),
    ensures
        i <= insert_position(list, p, i) <= list.len(),
        forall|k: int| i <= k < insert_position(list, p, i) ==> !path_less(p, #[trigger] list[k]),
        insert_position(list, p, i) < list.len() ==> path_less(
            p,
            list[insert_position(list, p, i)],
        ),
    decreases list.len() - i,
{
    if i < list.len() && !path_less(p, list[i]) {
        lemma_insert_position_is_first(list, p, i + 1);
    }
}

/// Putting a path in its place keeps a sorted list sorted, and adds that path and no other.
pub proof fn lemma_inserted_keeps_sorted(list: Seq<Seq<PartModel>>, p: Seq<PartModel>)
    requires
        is_sorted(list),
    ensures
        is_sorted(inserted(list, p)),
        inserted(list, p).to_multiset() == list.to_multiset().insert(p),
{
    lemma_insert_position_is_first(list, p, 0);
    let pos = insert_position(list, p, 0);
    let out = inserted(list, p);
    vstd::seq_lib::to_multiset_insert(list, pos, p);
    assert forall|i: int, j: int| 0 <= i < j < out.len() implies !path_less(
        #[trigger] out[j],
        #[trigger] out[i],
    ) by {
        if j < pos {
            assert(out[i] == list[i] && out[j] == list[j]);
        } else if j == pos {
            assert(out[i] == list[i]);
        } else if i < pos {
            assert(out[i] == list[i] && out[j] == list[j - 1]);
        } else if i == pos {
            assert(out[j] == list[j - 1]);
            if path_less(list[j - 1], p) {
                lemma_path_less_transitive(list[j - 1], p, list[pos]);
                if j - 1 == pos {
                    lemma_path_less_irreflexive(list[pos]);
                } else {
                    assert(!path_less(list[j - 1], list[pos]));
                }
            }
        } else {
            assert(out[i] == list[i - 1] && out[j] == list[j - 1]);
        }
    }
}

/// The paths of `list` in ascending order.
pub fn sort_paths(list: &Vec<FilePath>) -> (out: Vec<FilePath>)
    ensures
        is_sorted(path_models(out@)),
        path_models(out@).to_multiset() == path_models(list@).to_multiset(),
        out@.len() == list@.len(),
{
    let mut out: Vec<FilePath> = Vec::new();
    let mut i: usize = 0;
    assert(path_models(list@).take(0) =~= path_models(out@));
    while i < list.len()
        invariant
            i <= list.len(),
            out@.len() == i,
            is_sorted(path_models(out@)),
            path_models(out@).to_multiset() == path_models(list@).take(i as int).to_multiset(),
        decreases list.len() - i,
    {
        proof {
            lemma_inserted_keeps_sorted(path_models(out@), list@[i as int]@);
            lemma_insert_position_is_first(path_models(out@), list@[i as int]@, 0);
            vstd::seq_lib::to_multiset_build(path_models(list@).take(i as int), list@[i as int]@);
            assert(path_models(list@).take(i as int).push(list@[i as int]@) =~= path_models(
                list@,
            ).take(i + 1));
        }
        let ghost before = path_models(out@);
        insert_in_order(&mut out, list[i].duplicate());
        assert(path_models(out@).len() == before.len() + 1);
        i += 1;
    }
    assert(path_models(list@).take(list.len() as int) == path_models(list@));
    out
}

/// A path of `list` is `p`.
pub fn paths_contain(list: &Vec<FilePath>, p: &FilePath) -> (r: bool)
    ensures
        r == path_models(list@).contains(p@),
{
    let mut i: usize = 0;
    while i < list.len()
        invariant
            i <= list.len(),
            forall|j: int| 0 <= j < i ==> path_models(list@)[j] != p@,
        decreases list.len() - i,
    {
        if list[i].same_as(p) {
            assert(path_models(list@)[i as int] == p@);
            return true;
        }
        i += 1;
    }
    false
}

/// The paths of `list`, once more.
pub fn copy_paths(list: &Vec<FilePath>) -> (out: Vec<FilePath>)
    ensures
        path_models(out@) == path_models(list@),
{
    let mut out: Vec<FilePath> = Vec::new();
    let mut i: usize = 0;
    assert(path_models(out@) =~= path_models(list@).take(0));
    while i < list.len()
        invariant
            i <= list.len(),
            path_models(out@) == path_models(list@).take(i as int),
        decreases list.len() - i,
    {
        let ghost before = path_models(out@);
        out.push(list[i].duplicate());
        assert(path_models(out@) =~= before.push(list@[i as int]@));
        assert(before.push(list@[i as int]@) =~= path_models(list@).take(i + 1));
        i += 1;
    }
    assert(path_models(list@).take(list.len() as int) == path_models(list@));
    out
}

} // verus!
