//! Unix paths as the bytes the operating system knows them by, and absolute paths as the names
//! that lead to them from the root.

use vstd::prelude::*;
use crate::errors::SearchIndexError;
use crate::text::joined;
use vstd::utf8::{decode_utf8, valid_utf8};

verus! {

/// One step of a path.
pub enum PathComponent {
    /// The root directory.
    RootDir,
    /// `.`, which only a path's first step keeps.
    CurDir,
    /// `..`.
    ParentDir,
    /// A named entry.
    Normal(Vec<u8>),
}

/// What a [`PathComponent`] stands for.
pub enum Part {
    Root,
    Cur,
    Parent,
    Name(Seq<u8>),
}

impl View for PathComponent {
    type V = Part;

    open spec fn view(&self) -> Part {
        match *self {
            PathComponent::RootDir => Part::Root,
            PathComponent::CurDir => Part::Cur,
            PathComponent::ParentDir => Part::Parent,
            PathComponent::Normal(name) => Part::Name(name@),
        }
    }
}

/// The steps that a list of components stands for.
pub open spec fn parts_view(components: Seq<PathComponent>) -> Seq<Part> {
    Seq::new(components.len(), |i: int| components[i]@)
}

/// A path as its caller wrote it: any bytes, absolute or relative.
pub struct FilePath {
    pub bytes: Vec<u8>,
}

impl View for FilePath {
    type V = Seq<u8>;

    open spec fn view(&self) -> Seq<u8> {
        self.bytes@
    }
}

/// The separator between the steps of a path.
pub const SEPARATOR: u8 = 47;

/// The full stop, which `.` and `..` are made of and which precedes a file name's extension.
pub const FULL_STOP: u8 = 46;

/// The pieces of `bytes` between separators, in order; empty ones included.
pub open spec fn segments(bytes: Seq<u8>) -> Seq<Seq<u8>>
    decreases bytes.len(),
{
    if bytes.len() == 0 {
        seq![Seq::<u8>::empty()]
    } else {
        let before = segments(bytes.drop_last());
        if bytes.last() == SEPARATOR {
            before.push(Seq::empty())
        } else {
            before.drop_last().push(before.last().push(bytes.last()))
        }
    }
}

/// The step that one piece of a path stands for: none for an empty piece or for `.`.
pub open spec fn segment_parts(segment: Seq<u8>) -> Seq<Part> {
    if segment.len() == 0 || segment == seq![FULL_STOP] {
        Seq::empty()
    } else if segment == seq![FULL_STOP, FULL_STOP] {
        seq![Part::Parent]
    } else {
        seq![Part::Name(segment)]
    }
}

/// The steps that a list of pieces stands for.
pub open spec fn segments_parts(pieces: Seq<Seq<u8>>) -> Seq<Part>
    decreases pieces.len(),
{
    if pieces.len() == 0 {
        Seq::empty()
    } else {
        segments_parts(pieces.drop_last()) + segment_parts(pieces.last())
    }
}

/// The first step of a path where it is not a named one.
pub open spec fn leading_parts(bytes: Seq<u8>) -> Seq<Part> {
    if is_absolute(bytes) {
        seq![Part::Root]
    } else if segments(bytes)[0] == seq![FULL_STOP] {
        seq![Part::Cur]
    } else {
        Seq::empty()
    }
}

/// The steps of a path: repeated separators and inner `.` do not count.
pub open spec fn parts_of(bytes: Seq<u8>) -> Seq<Part> {
    leading_parts(bytes) + segments_parts(segments(bytes))
}

/// Whether a path starts at the root.
pub open spec fn is_absolute(bytes: Seq<u8>) -> bool {
    bytes.len() > 0 && bytes[0] == SEPARATOR
}

proof fn pieces_are_not_the_root(pieces: Seq<Seq<u8>>, i: int)
    requires
        0 <= i < segments_parts(pieces).len(),
    ensures
        !(segments_parts(pieces)[i] is Root),
    decreases pieces.len(),
{
    let before = segments_parts(pieces.drop_last());
    if i < before.len() {
        pieces_are_not_the_root(pieces.drop_last(), i);
    }
}

/// A path whose first step is the root is absolute.
pub proof fn first_step_is_the_root(bytes: Seq<u8>)
    requires
        parts_of(bytes).len() > 0,
        parts_of(bytes)[0] is Root,
    ensures
        is_absolute(bytes),
{
    if !is_absolute(bytes) && leading_parts(bytes).len() == 0 {
        pieces_are_not_the_root(segments(bytes), 0);
    }
}

/// Whether two byte strings are the same.
pub fn same_bytes(left: &Vec<u8>, right: &Vec<u8>) -> (same: bool)
    ensures
        same == (left@ == right@),
{
    if left.len() != right.len() {
        return false;
    }
    let mut i: usize = 0;
    while i < left.len()
        invariant
            left@.len() == right@.len(),
            i <= left@.len(),
            forall|k: int| 0 <= k < i ==> left@[k] == right@[k],
        decreases left@.len() - i,
    {
        if left[i] != right[i] {
            return false;
        }
        i = i + 1;
    }
    assert(left@ =~= right@);
    true
}

/// A copy of `bytes`.
pub fn copied_bytes(bytes: &Vec<u8>) -> (copy: Vec<u8>)
    ensures
        copy@ == bytes@,
{
    let mut copy: Vec<u8> = Vec::new();
    let mut i: usize = 0;
    while i < bytes.len()
        invariant
            i <= bytes@.len(),
            copy@ == bytes@.take(i as int),
        decreases bytes@.len() - i,
    {
        copy.push(bytes[i]);
        i = i + 1;
        assert(bytes@.take(i as int) =~= bytes@.take(i - 1).push(bytes@[i - 1]));
    }
    assert(bytes@.take(i as int) =~= bytes@);
    copy
}

fn push_segment(components: &mut Vec<PathComponent>, segment: Vec<u8>)
    ensures
        parts_view(final(components)@) == parts_view(old(components)@) + segment_parts(segment@),
{
    let ghost before = components@;
    if segment.len() == 0 || (segment.len() == 1 && segment[0] == FULL_STOP) {
        assert(segment@ =~= Seq::<u8>::empty() || segment@ =~= seq![FULL_STOP]);
        assert(parts_view(components@) =~= parts_view(before) + segment_parts(segment@));
    } else if segment.len() == 2 && segment[0] == FULL_STOP && segment[1] == FULL_STOP {
        assert(segment@ =~= seq![FULL_STOP, FULL_STOP]);
        components.push(PathComponent::ParentDir);
        assert(parts_view(components@) =~= parts_view(before) + segment_parts(segment@));
    } else {
        let ghost name = segment@;
        components.push(PathComponent::Normal(segment));
        assert(parts_view(components@) =~= parts_view(before) + seq![Part::Name(name)]);
        assert(segment_parts(name) == seq![Part::Name(name)]);
    }
}

proof fn segments_are_one_or_more(bytes: Seq<u8>)
    ensures
        segments(bytes).len() >= 1,
    decreases bytes.len(),
{
    if bytes.len() > 0 {
        segments_are_one_or_more(bytes.drop_last());
    }
}

/// The first piece is what precedes the first separator.
proof fn first_segment_at_separator(bytes: Seq<u8>, end: int)
    requires
        0 <= end <= bytes.len(),
        forall|k: int| 0 <= k < end ==> bytes[k] != SEPARATOR,
        end == bytes.len() || bytes[end] == SEPARATOR,
    ensures
        segments(bytes)[0] == bytes.take(end),
    decreases bytes.len(),
{
    segments_are_one_or_more(bytes);
    if bytes.len() == 0 {
        assert(bytes.take(end) =~= Seq::<u8>::empty());
    } else if end == bytes.len() {
        let shorter = bytes.drop_last();
        first_segment_at_separator(shorter, end - 1);
        whole_is_one_segment(shorter);
        assert(shorter.take(end - 1) =~= shorter);
        assert(shorter.push(bytes.last()) =~= bytes);
        assert(bytes.take(end) =~= bytes);
    } else {
        let shorter = bytes.drop_last();
        segments_are_one_or_more(shorter);
        if end < shorter.len() {
            first_segment_at_separator(shorter, end);
            assert(shorter.take(end) =~= bytes.take(end));
            two_segments_after_separator(shorter, end);
        } else {
            first_segment_at_separator(shorter, end);
            assert(shorter.take(end) =~= bytes.take(end));
        }
    }
}

proof fn whole_is_one_segment(bytes: Seq<u8>)
    requires
        forall|k: int| 0 <= k < bytes.len() ==> bytes[k] != SEPARATOR,
    ensures
        segments(bytes).len() == 1,
    decreases bytes.len(),
{
    if bytes.len() > 0 {
        whole_is_one_segment(bytes.drop_last());
    }
}

proof fn two_segments_after_separator(bytes: Seq<u8>, at: int)
    requires
        0 <= at < bytes.len(),
        bytes[at] == SEPARATOR,
    ensures
        segments(bytes).len() >= 2,
    decreases bytes.len(),
{
    segments_are_one_or_more(bytes.drop_last());
    if at < bytes.len() - 1 {
        two_segments_after_separator(bytes.drop_last(), at);
    }
}

/// What `String::from_utf8_lossy` makes of bytes.
pub uninterp spec fn lossy_text(bytes: Seq<u8>) -> Seq<char>;

/// `String::from_utf8_lossy`: the text that the bytes encode, with the replacement character in
/// place of what is no UTF-8. Bytes that are UTF-8 come back as the text they encode.
#[verifier::external_body]
pub(crate) fn text_from_utf8_lossy(bytes: &Vec<u8>) -> (text: String)
    ensures
        text@ == lossy_text(bytes@),
        valid_utf8(bytes@) ==> text@ == decode_utf8(bytes@),
{
    String::from_utf8_lossy(bytes).into_owned()
}

/// `std::str::from_utf8` accepts exactly the byte strings that are UTF-8.
#[verifier::external_body]
pub(crate) fn is_utf8(bytes: &Vec<u8>) -> (yes: bool)
    ensures
        yes == valid_utf8(bytes@),
{
    std::str::from_utf8(bytes).is_ok()
}

impl FilePath {
    /// A copy of this path.
    pub fn copied(&self) -> (path: FilePath)
        ensures
            path@ == self@,
    {
        FilePath { bytes: copied_bytes(&self.bytes) }
    }

    /// Whether the path starts at the root.
    pub fn absolute(&self) -> (yes: bool)
        ensures
            yes == is_absolute(self@),
    {
        self.bytes.len() > 0 && self.bytes[0] == SEPARATOR
    }

    /// The path as it is shown to people.
    pub fn display(&self) -> (text: String)
        ensures
            text@ == lossy_text(self@),
    {
        text_from_utf8_lossy(&self.bytes)
    }

    /// The steps of the path.
    pub fn components(&self) -> (components: Vec<PathComponent>)
        ensures
            parts_view(components@) == parts_of(self@),
    {
        let mut components: Vec<PathComponent> = Vec::new();
        let mut end: usize = 0;
        while end < self.bytes.len() && self.bytes[end] != SEPARATOR
            invariant
                end <= self.bytes@.len(),
                forall|k: int| 0 <= k < end ==> self.bytes@[k] != SEPARATOR,
            decreases self.bytes@.len() - end,
        {
            end = end + 1;
        }
        proof {
            first_segment_at_separator(self@, end as int);
            if end == 1 {
                assert(self@.take(1) =~= seq![self@[0]]);
                if self@[0] != FULL_STOP {
                    assert(self@.take(1)[0] != seq![FULL_STOP][0]);
                }
            } else {
                assert(self@.take(end as int).len() != seq![FULL_STOP].len());
            }
        }
        if self.absolute() {
            components.push(PathComponent::RootDir);
            assert(parts_view(components@) =~= leading_parts(self@));
        } else if end == 1 && self.bytes[0] == FULL_STOP {
            components.push(PathComponent::CurDir);
            assert(parts_view(components@) =~= leading_parts(self@));
        } else {
            assert(parts_view(components@) =~= leading_parts(self@));
        }
        let mut segment: Vec<u8> = Vec::new();
        let mut i: usize = 0;
        proof {
            assert(self@.take(0) =~= Seq::<u8>::empty());
            let none = segments(self@.take(0));
            assert(none =~= seq![Seq::<u8>::empty()]);
            assert(none.drop_last() =~= Seq::<Seq<u8>>::empty());
            assert(segments_parts(none.drop_last()) =~= Seq::<Part>::empty());
            assert(parts_view(components@) =~= leading_parts(self@) + segments_parts(
                none.drop_last(),
            ));
        }
        while i < self.bytes.len()
            invariant
                i <= self.bytes@.len(),
                segment@ == segments(self@.take(i as int)).last(),
                parts_view(components@) == leading_parts(self@) + segments_parts(
                    segments(self@.take(i as int)).drop_last(),
                ),
            decreases self.bytes@.len() - i,
        {
            let byte = self.bytes[i];
            let ghost seen = segments(self@.take(i as int));
            let ghost next = segments(self@.take(i + 1));
            proof {
                segments_are_one_or_more(self@.take(i as int));
                assert(self@.take(i + 1).drop_last() =~= self@.take(i as int));
                assert(self@.take(i + 1).last() == byte);
            }
            if byte == SEPARATOR {
                let finished = segment;
                segment = Vec::new();
                push_segment(&mut components, finished);
                proof {
                    assert(next == seen.push(Seq::<u8>::empty()));
                    assert(next.drop_last() =~= seen);
                    assert(segments_parts(seen) == segments_parts(seen.drop_last())
                        + segment_parts(seen.last()));
                    assert(segment@ =~= next.last());
                    assert(parts_view(components@) =~= leading_parts(self@) + segments_parts(
                        next.drop_last(),
                    ));
                }
            } else {
                segment.push(byte);
                assert(next.drop_last() =~= seen.drop_last());
            }
            i = i + 1;
        }
        push_segment(&mut components, segment);
        proof {
            let all = segments(self@);
            segments_are_one_or_more(self@);
            assert(self@.take(i as int) =~= self@);
            assert(segments_parts(all) == segments_parts(all.drop_last()) + segment_parts(
                all.last(),
            ));
            assert(parts_view(components@) =~= parts_of(self@));
        }
        components
    }
}

/// Whether `name` can name an entry of a directory in a normalized path.
pub open spec fn is_entry_name(name: Seq<u8>) -> bool {
    &&& name.len() > 0
    &&& forall|i: int| 0 <= i < name.len() ==> name[i] != SEPARATOR
    &&& name != seq![FULL_STOP]
    &&& name != seq![FULL_STOP, FULL_STOP]
}

/// Whether every one of `names` can name an entry.
pub open spec fn are_entry_names(names: Seq<Seq<u8>>) -> bool {
    forall|i: int| 0 <= i < names.len() ==> is_entry_name(#[trigger] names[i])
}

/// The byte strings that a list of byte vectors holds.
pub open spec fn names_view(names: Seq<Vec<u8>>) -> Seq<Seq<u8>> {
    Seq::new(names.len(), |i: int| names[i]@)
}

/// Where a walk over `parts` from the root ends; none if it steps above the root.
pub open spec fn normalized_names(parts: Seq<Part>) -> Option<Seq<Seq<u8>>>
    decreases parts.len(),
{
    if parts.len() == 0 {
        Some(Seq::empty())
    } else {
        match normalized_names(parts.drop_last()) {
            None => None,
            Some(names) => match parts.last() {
                Part::Root => Some(names),
                Part::Cur => Some(names),
                Part::Parent => if names.len() == 0 {
                    None
                } else {
                    Some(names.drop_last())
                },
                Part::Name(name) => Some(names.push(name)),
            },
        }
    }
}

/// The names that an absolute path leads through once `.` and `..` are resolved by their
/// spelling.
pub open spec fn normalized(bytes: Seq<u8>) -> Option<Seq<Seq<u8>>> {
    if is_absolute(bytes) {
        normalized_names(parts_of(bytes))
    } else {
        None
    }
}

/// Each name after a separator.
pub open spec fn separated(names: Seq<Seq<u8>>) -> Seq<u8>
    decreases names.len(),
{
    if names.len() == 0 {
        Seq::empty()
    } else {
        separated(names.drop_last()).push(SEPARATOR) + names.last()
    }
}

/// The spelling of the absolute path through `names`.
pub open spec fn absolute_bytes(names: Seq<Seq<u8>>) -> Seq<u8> {
    if names.len() == 0 {
        seq![SEPARATOR]
    } else {
        separated(names)
    }
}

/// `path` taken from the directory `base`, as `PathBuf::join` spells it.
pub open spec fn joined_bytes(base: Seq<u8>, path: Seq<u8>) -> Seq<u8> {
    if is_absolute(path) {
        path
    } else if base.len() == 0 || base.last() == SEPARATOR {
        base + path
    } else {
        base.push(SEPARATOR) + path
    }
}

/// Appends `more` to `bytes`.
pub fn append_bytes(bytes: &mut Vec<u8>, more: &Vec<u8>)
    ensures
        final(bytes)@ == old(bytes)@ + more@,
{
    let ghost before = bytes@;
    let mut i: usize = 0;
    while i < more.len()
        invariant
            i <= more@.len(),
            bytes@ == before + more@.take(i as int),
        decreases more@.len() - i,
    {
        bytes.push(more[i]);
        i = i + 1;
        assert(before + more@.take(i as int) =~= (before + more@.take(i - 1)).push(more@[i - 1]));
    }
    assert(more@.take(i as int) =~= more@);
}

impl FilePath {
    /// `path` taken from this directory.
    pub fn join(&self, path: &FilePath) -> (whole: FilePath)
        ensures
            whole@ == joined_bytes(self@, path@),
    {
        if path.absolute() {
            return path.copied();
        }
        let mut bytes = copied_bytes(&self.bytes);
        if bytes.len() > 0 && bytes[bytes.len() - 1] != SEPARATOR {
            bytes.push(SEPARATOR);
        }
        append_bytes(&mut bytes, &path.bytes);
        FilePath { bytes }
    }
}

/// An absolute path without `.`, `..` and doubled separators: the names that lead to it from the
/// root.
pub struct AbsolutePath {
    names: Vec<Vec<u8>>,
}

impl View for AbsolutePath {
    type V = Seq<Seq<u8>>;

    closed spec fn view(&self) -> Seq<Seq<u8>> {
        names_view(self.names@)
    }
}

/// A copy of a list of byte strings.
pub fn copied_names(names: &Vec<Vec<u8>>) -> (copy: Vec<Vec<u8>>)
    ensures
        names_view(copy@) == names_view(names@),
{
    let mut copy: Vec<Vec<u8>> = Vec::new();
    let mut i: usize = 0;
    while i < names.len()
        invariant
            i <= names@.len(),
            copy@.len() == i,
            forall|k: int| 0 <= k < i ==> (#[trigger] copy@[k])@ == names@[k]@,
        decreases names@.len() - i,
    {
        copy.push(copied_bytes(&names[i]));
        i = i + 1;
    }
    assert(names_view(copy@) =~= names_view(names@));
    copy
}

impl AbsolutePath {
    #[verifier::type_invariant]
    spec fn names_are_entries(self) -> bool {
        are_entry_names(names_view(self.names@))
    }

    /// The root directory.
    pub fn root() -> (path: AbsolutePath)
        ensures
            path@ == Seq::<Seq<u8>>::empty(),
    {
        let path = AbsolutePath { names: Vec::new() };
        assert(path@ =~= Seq::<Seq<u8>>::empty());
        path
    }

    /// A copy of this path.
    pub fn copied(&self) -> (path: AbsolutePath)
        ensures
            path@ == self@,
    {
        proof {
            use_type_invariant(self);
        }
        AbsolutePath { names: copied_names(&self.names) }
    }

    /// How many names lead from the root to this path.
    pub fn depth(&self) -> (depth: usize)
        ensures
            depth == self@.len(),
    {
        self.names.len()
    }

    /// The name at `index`, counted from the root.
    pub fn name(&self, index: usize) -> (name: &Vec<u8>)
        requires
            index < self@.len(),
        ensures
            name@ == self@[index as int],
    {
        &self.names[index]
    }

    /// Whether two paths lead through the same names.
    pub fn same(&self, other: &AbsolutePath) -> (same: bool)
        ensures
            same == (self@ == other@),
    {
        if self.names.len() != other.names.len() {
            return false;
        }
        let mut i: usize = 0;
        while i < self.names.len()
            invariant
                self@.len() == other@.len() == self.names@.len() == other.names@.len(),
                i <= self.names@.len(),
                forall|k: int| 0 <= k < i ==> self@[k] == other@[k],
            decreases self.names@.len() - i,
        {
            if !same_bytes(&self.names[i], &other.names[i]) {
                assert(self@[i as int] != other@[i as int]);
                return false;
            }
            assert(self@[i as int] == other@[i as int]);
            i = i + 1;
        }
        assert(self@ =~= other@);
        true
    }

    /// The path's spelling.
    pub fn bytes(&self) -> (bytes: Vec<u8>)
        ensures
            bytes@ == absolute_bytes(self@),
    {
        let mut bytes: Vec<u8> = Vec::new();
        if self.names.len() == 0 {
            bytes.push(SEPARATOR);
            assert(bytes@ =~= seq![SEPARATOR]);
            return bytes;
        }
        let mut i: usize = 0;
        while i < self.names.len()
            invariant
                i <= self.names@.len(),
                bytes@ == separated(self@.take(i as int)),
            decreases self.names@.len() - i,
        {
            bytes.push(SEPARATOR);
            append_bytes(&mut bytes, &self.names[i]);
            i = i + 1;
            assert(self@.take(i as int).drop_last() =~= self@.take(i - 1));
        }
        assert(self@.take(i as int) =~= self@);
        bytes
    }

    /// The path as it is shown to people and kept in the index.
    pub fn display(&self) -> (text: String)
        ensures
            text@ == lossy_text(absolute_bytes(self@)),
    {
        text_from_utf8_lossy(&self.bytes())
    }

    /// This path as raw bytes.
    pub fn file_path(&self) -> (path: FilePath)
        ensures
            path@ == absolute_bytes(self@),
    {
        FilePath { bytes: self.bytes() }
    }

    /// The directory `up` steps above this path.
    pub fn ancestor(&self, up: usize) -> (path: AbsolutePath)
        requires
            up <= self@.len(),
        ensures
            path@ == self@.take(self@.len() - up),
    {
        proof {
            use_type_invariant(self);
        }
        let kept: usize = self.names.len() - up;
        let mut names: Vec<Vec<u8>> = Vec::new();
        let mut i: usize = 0;
        while i < kept
            invariant
                i <= kept <= self.names@.len(),
                kept == self.names@.len() - up,
                names@.len() == i,
                forall|k: int| 0 <= k < i ==> (#[trigger] names@[k])@ == self.names@[k]@,
            decreases kept - i,
        {
            names.push(copied_bytes(&self.names[i]));
            i = i + 1;
        }
        assert(names_view(names@) =~= self@.take(kept as int));
        proof {
            let above = self@.take(kept as int);
            assert forall|k: int| 0 <= k < above.len() implies is_entry_name(#[trigger] above[k]) by {
                assert(above[k] == self@[k]);
                assert(is_entry_name(self@[k]));
            }
        }
        AbsolutePath { names }
    }

    /// The last name, which the root has not.
    pub fn file_name(&self) -> (name: Option<Vec<u8>>)
        ensures
            match name {
                Some(name) => self@.len() > 0 && name@ == self@.last() && is_entry_name(name@),
                None => self@.len() == 0,
            },
    {
        proof {
            use_type_invariant(self);
        }
        if self.names.len() == 0 {
            None
        } else {
            assert(is_entry_name(names_view(self.names@)[self.names@.len() - 1]));
            Some(copied_bytes(&self.names[self.names.len() - 1]))
        }
    }

    /// The names that lead from `root` to this path; none if it is not under `root`.
    pub fn names_below(&self, root: &AbsolutePath) -> (names: Option<Vec<Vec<u8>>>)
        ensures
            match names {
                Some(names) => root@.is_prefix_of(self@) && names_view(names@) == self@.skip(
                    root@.len() as int,
                ) && are_entry_names(names_view(names@)),
                None => !root@.is_prefix_of(self@),
            },
    {
        proof {
            use_type_invariant(self);
        }
        if root.names.len() > self.names.len() {
            return None;
        }
        let mut i: usize = 0;
        while i < root.names.len()
            invariant
                i <= root.names@.len() <= self.names@.len(),
                forall|k: int| 0 <= k < i ==> self@[k] == root@[k],
            decreases root.names@.len() - i,
        {
            if !same_bytes(&root.names[i], &self.names[i]) {
                proof {
                    if root@.is_prefix_of(self@) {
                        assert(self@.subrange(0, root@.len() as int)[i as int] == self@[i as int]);
                    }
                }
                return None;
            }
            assert(self@[i as int] == root@[i as int]);
            i = i + 1;
        }
        assert(self@.subrange(0, root@.len() as int) =~= root@);
        let mut names: Vec<Vec<u8>> = Vec::new();
        while i < self.names.len()
            invariant
                root.names@.len() <= i <= self.names@.len(),
                names@.len() == i - root.names@.len(),
                forall|k: int|
                    0 <= k < names@.len() ==> (#[trigger] names@[k])@ == self.names@[k
                        + root.names@.len()]@,
            decreases self.names@.len() - i,
        {
            names.push(copied_bytes(&self.names[i]));
            i = i + 1;
        }
        assert(names_view(names@) =~= self@.skip(root@.len() as int));
        proof {
            let below = names_view(names@);
            assert forall|k: int| 0 <= k < below.len() implies is_entry_name(#[trigger] below[k]) by {
                assert(below[k] == names_view(self.names@)[k + root@.len()]);
            }
        }
        Some(names)
    }

    /// The path that `names` lead to from this directory.
    pub fn descend(&self, names: &Vec<Vec<u8>>) -> (path: AbsolutePath)
        requires
            are_entry_names(names_view(names@)),
        ensures
            path@ == self@ + names_view(names@),
    {
        proof {
            use_type_invariant(self);
        }
        let mut whole = copied_names(&self.names);
        let ghost above = self@;
        let mut i: usize = 0;
        assert(names_view(names@.take(0)) =~= Seq::<Seq<u8>>::empty());
        assert(names_view(whole@) =~= above + names_view(names@.take(0)));
        while i < names.len()
            invariant
                i <= names@.len(),
                names_view(whole@) == above + names_view(names@.take(i as int)),
            decreases names@.len() - i,
        {
            let ghost before = names_view(whole@);
            whole.push(copied_bytes(&names[i]));
            i = i + 1;
            assert(names_view(whole@) =~= before.push(names@[i - 1]@));
            assert(names_view(whole@) =~= above + names_view(names@.take(i as int)));
        }
        assert(names@.take(i as int) =~= names@);
        proof {
            let all = above + names_view(names@);
            assert forall|k: int| 0 <= k < all.len() implies is_entry_name(#[trigger] all[k]) by {
                if k < above.len() {
                    assert(is_entry_name(above[k]));
                } else {
                    assert(is_entry_name(names_view(names@)[k - above.len()]));
                }
            }
        }
        AbsolutePath { names: whole }
    }

    /// The entry `name` of this directory.
    pub fn child(&self, name: Vec<u8>) -> (path: AbsolutePath)
        requires
            is_entry_name(name@),
        ensures
            path@ == self@.push(name@),
    {
        let ghost entry = name@;
        let mut names: Vec<Vec<u8>> = Vec::new();
        names.push(name);
        assert(names_view(names@) =~= seq![entry]);
        let path = self.descend(&names);
        assert(path@ =~= self@.push(entry));
        path
    }
}

/// What the message of a path error says: `what`, then the path as it is shown.
pub open spec fn path_message(what: Seq<char>, path: Seq<u8>) -> Seq<char> {
    what + lossy_text(path)
}

/// An I/O error that names `path`.
pub fn path_error(what: &str, path: &FilePath) -> (error: SearchIndexError)
    ensures
        error matches SearchIndexError::Io(message) && message@ == path_message(what@, path@),
{
    SearchIndexError::Io(joined(what, path.display().as_str()))
}

/// The names among the steps of a path are names of entries.
pub proof fn parts_name_entries(bytes: Seq<u8>, i: int)
    requires
        0 <= i < parts_of(bytes).len(),
    ensures
        parts_of(bytes)[i] matches Part::Name(name) ==> is_entry_name(name),
{
    let pieces = segments(bytes);
    segments_have_no_separator(bytes);
    let lead = leading_parts(bytes);
    if i >= lead.len() {
        pieces_name_entries(pieces, i - lead.len());
    }
}

proof fn segments_have_no_separator(bytes: Seq<u8>)
    ensures
        forall|i: int, k: int|
            0 <= i < segments(bytes).len() && 0 <= k < segments(bytes)[i].len()
                ==> #[trigger] segments(bytes)[i][k] != SEPARATOR,
    decreases bytes.len(),
{
    if bytes.len() > 0 {
        segments_have_no_separator(bytes.drop_last());
        segments_are_one_or_more(bytes.drop_last());
    }
}

proof fn pieces_name_entries(pieces: Seq<Seq<u8>>, i: int)
    requires
        0 <= i < segments_parts(pieces).len(),
        forall|i: int, k: int|
            0 <= i < pieces.len() && 0 <= k < pieces[i].len() ==> #[trigger] pieces[i][k]
                != SEPARATOR,
    ensures
        segments_parts(pieces)[i] matches Part::Name(name) ==> is_entry_name(name),
    decreases pieces.len(),
{
    if pieces.len() > 0 {
        let before = segments_parts(pieces.drop_last());
        if i < before.len() {
            assert forall|j: int, k: int|
                0 <= j < pieces.drop_last().len() && 0 <= k < pieces.drop_last()[j].len()
                implies #[trigger] pieces.drop_last()[j][k] != SEPARATOR by {
                assert(pieces[j][k] != SEPARATOR);
            }
            pieces_name_entries(pieces.drop_last(), i);
        } else {
            assert forall|k: int| 0 <= k < pieces.last().len() implies #[trigger] pieces.last()[k]
                != SEPARATOR by {
                assert(pieces[pieces.len() - 1][k] != SEPARATOR);
            }
        }
    }
}

/// Resolves `.` and `..` by their spelling. A path that is not absolute, or that steps above the
/// root, is an error that names it.
pub fn normalize_absolute_path(path: &FilePath) -> (result: Result<AbsolutePath, SearchIndexError>)
    ensures
        match result {
            Ok(names) => normalized(path@) == Some(names@),
            Err(error) => {
                &&& normalized(path@) is None
                &&& error matches SearchIndexError::Io(message)
                &&& message@ == path_message(
                    if is_absolute(path@) {
                        "meeting path escapes filesystem root: "@
                    } else {
                        "expected absolute meeting path: "@
                    },
                    path@,
                )
            },
        },
{
    if !path.absolute() {
        return Err(path_error("expected absolute meeting path: ", path));
    }
    let components = path.components();
    let mut names: Vec<Vec<u8>> = Vec::new();
    let ghost parts = parts_of(path@);
    let mut i: usize = 0;
    assert(names_view(names@) =~= Seq::<Seq<u8>>::empty());
    assert(parts.take(0) =~= Seq::<Part>::empty());
    while i < components.len()
        invariant
            parts == parts_of(path@),
            parts_view(components@) == parts,
            is_absolute(path@),
            i <= components@.len(),
            normalized_names(parts.take(i as int)) == Some(names_view(names@)),
            are_entry_names(names_view(names@)),
        decreases components@.len() - i,
    {
        let ghost before = names_view(names@);
        proof {
            assert(parts.take(i + 1).drop_last() =~= parts.take(i as int));
            assert(parts.take(i + 1).last() == components@[i as int]@);
            parts_name_entries(path@, i as int);
        }
        match &components[i] {
            PathComponent::RootDir => {},
            PathComponent::CurDir => {},
            PathComponent::ParentDir => {
                if names.len() == 0 {
                    proof {
                        walk_above_root_stays_above(parts, i + 1);
                    }
                    return Err(path_error("meeting path escapes filesystem root: ", path));
                }
                let dropped = names.pop();
                assert(names_view(names@) =~= before.drop_last());
            },
            PathComponent::Normal(name) => {
                names.push(copied_bytes(name));
                assert(names_view(names@) =~= before.push(name@));
            },
        }
        i = i + 1;
    }
    assert(parts.take(i as int) =~= parts);
    Ok(AbsolutePath { names })
}

proof fn walk_above_root_stays_above(parts: Seq<Part>, i: int)
    requires
        0 <= i <= parts.len(),
        normalized_names(parts.take(i)) is None,
    ensures
        normalized_names(parts) is None,
    decreases parts.len() - i,
{
    if i < parts.len() {
        assert(parts.take(i + 1).drop_last() =~= parts.take(i));
        walk_above_root_stays_above(parts, i + 1);
    } else {
        assert(parts.take(i) =~= parts);
    }
}

proof fn segments_of_separated(bytes: Seq<u8>, name: Seq<u8>)
    requires
        forall|i: int| 0 <= i < name.len() ==> name[i] != SEPARATOR,
    ensures
        segments(bytes.push(SEPARATOR) + name) == segments(bytes).push(name),
    decreases name.len(),
{
    let whole = bytes.push(SEPARATOR) + name;
    if name.len() == 0 {
        assert(whole =~= bytes.push(SEPARATOR));
        assert(whole.drop_last() =~= bytes);
        assert(name =~= Seq::<u8>::empty());
    } else {
        segments_of_separated(bytes, name.drop_last());
        assert(whole.drop_last() =~= bytes.push(SEPARATOR) + name.drop_last());
        assert(name.drop_last().push(name.last()) =~= name);
        assert(segments(bytes).push(name.drop_last()).drop_last() =~= segments(bytes));
    }
}

proof fn parts_of_names(names: Seq<Seq<u8>>)
    requires
        are_entry_names(names),
    ensures
        segments(separated(names)) == seq![Seq::<u8>::empty()] + names,
        segments_parts(segments(separated(names))) == Seq::new(
            names.len(),
            |i: int| Part::Name(names[i]),
        ),
        normalized_names(seq![Part::Root] + segments_parts(segments(separated(names)))) == Some(
            names,
        ),
    decreases names.len(),
{
    let named = Seq::new(names.len(), |i: int| Part::Name(names[i]));
    if names.len() == 0 {
        assert(segments(separated(names)) =~= seq![Seq::<u8>::empty()] + names);
        let pieces = segments(separated(names));
        assert(pieces.drop_last() =~= Seq::<Seq<u8>>::empty());
        assert(segments_parts(pieces.drop_last()) =~= Seq::<Part>::empty());
        assert(pieces.last().len() == 0);
        assert(segments_parts(pieces) =~= named);
        assert((seq![Part::Root] + named).drop_last() =~= Seq::<Part>::empty());
        assert(normalized_names(seq![Part::Root] + named) == normalized_names(Seq::<Part>::empty()));
        assert(names =~= Seq::<Seq<u8>>::empty());
    } else {
        let shorter = names.drop_last();
        assert forall|i: int| 0 <= i < shorter.len() implies is_entry_name(#[trigger] shorter[i]) by {
            assert(is_entry_name(names[i]));
        }
        assert(is_entry_name(names[names.len() - 1]));
        parts_of_names(shorter);
        segments_of_separated(separated(shorter), names.last());
        let pieces = segments(separated(names));
        assert(pieces =~= seq![Seq::<u8>::empty()] + names);
        assert(pieces.drop_last() =~= segments(separated(shorter)));
        assert(pieces.last() == names.last());
        assert(segment_parts(names.last()) == seq![Part::Name(names.last())]);
        assert(segments_parts(pieces) =~= named);
        let walk = seq![Part::Root] + named;
        assert(walk.drop_last() =~= seq![Part::Root] + segments_parts(segments(separated(shorter))));
        assert(shorter.push(names.last()) =~= names);
    }
}

/// Normalizing the spelling of a normalized path gives that path back.
pub proof fn normalizing_a_normalized_path_changes_nothing(names: Seq<Seq<u8>>)
    requires
        are_entry_names(names),
    ensures
        normalized(absolute_bytes(names)) == Some(names),
{
    let bytes = absolute_bytes(names);
    if names.len() == 0 {
        assert(bytes.drop_last() =~= Seq::<u8>::empty());
        let none = segments(Seq::<u8>::empty());
        assert(none =~= seq![Seq::<u8>::empty()]);
        let pieces = segments(bytes);
        assert(pieces =~= seq![Seq::<u8>::empty(), Seq::<u8>::empty()]);
        assert(pieces.drop_last() =~= none);
        assert(none.drop_last() =~= Seq::<Seq<u8>>::empty());
        assert(segments_parts(none.drop_last()) =~= Seq::<Part>::empty());
        assert(segments_parts(none) =~= Seq::<Part>::empty());
        assert(segments_parts(pieces) =~= Seq::<Part>::empty());
        let walk = parts_of(bytes);
        assert(walk =~= seq![Part::Root]);
        assert(walk.drop_last() =~= Seq::<Part>::empty());
        assert(normalized_names(Seq::<Part>::empty()) == Some(Seq::<Seq<u8>>::empty()));
        assert(names =~= Seq::<Seq<u8>>::empty());
    } else {
        parts_of_names(names);
        separated_starts_at_root(names);
        assert(leading_parts(bytes) == seq![Part::Root]);
    }
}

proof fn separated_starts_at_root(names: Seq<Seq<u8>>)
    requires
        names.len() > 0,
    ensures
        is_absolute(separated(names)),
    decreases names.len(),
{
    if names.len() > 1 {
        separated_starts_at_root(names.drop_last());
    } else {
        assert(separated(names.drop_last()) =~= Seq::<u8>::empty());
    }
}

/// What normalization gives are entry names.
pub proof fn normalized_paths_have_entry_names(bytes: Seq<u8>)
    ensures
        normalized(bytes) matches Some(names) ==> are_entry_names(names),
{
    if is_absolute(bytes) {
        walk_keeps_entry_names(bytes, parts_of(bytes).len() as int);
        assert(parts_of(bytes).take(parts_of(bytes).len() as int) =~= parts_of(bytes));
    }
}

proof fn walk_keeps_entry_names(bytes: Seq<u8>, n: int)
    requires
        0 <= n <= parts_of(bytes).len(),
    ensures
        normalized_names(parts_of(bytes).take(n)) matches Some(names) ==> are_entry_names(names),
    decreases n,
{
    if n > 0 {
        walk_keeps_entry_names(bytes, n - 1);
        parts_name_entries(bytes, n - 1);
        assert(parts_of(bytes).take(n).drop_last() =~= parts_of(bytes).take(n - 1));
    }
}

} // verus!
