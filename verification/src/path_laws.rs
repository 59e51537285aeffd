//! What holds of paths: how they are taken apart, resolved by their spelling, and spelled again.

use vstd::prelude::*;
use crate::paths::{
    absolute_bytes, are_entry_names, is_absolute, is_entry_name, joined_bytes, leading_parts,
    lossy_text, normalized, normalized_names, parts_of, path_message, segment_parts, segments,
    segments_parts, separated, Part,
};

verus! {

/// Whether bytes hold no `/`.
pub open spec fn is_one_piece(bytes: Seq<u8>) -> bool {
    forall|i: int| 0 <= i < bytes.len() ==> #[trigger] bytes[i] != 0x2f
}

/// The pieces of a path stand between its separators: a path without one is one piece, and what
/// follows the last separator is the last piece.
pub proof fn pieces_stand_between_separators(path: Seq<u8>, piece: Seq<u8>)
    requires
        is_one_piece(piece),
    ensures
        segments(piece) == seq![piece],
        segments(path.push(0x2f) + piece) == segments(path).push(piece),
    decreases piece.len(),
{
    if piece.len() == 0 {
        assert(piece =~= Seq::<u8>::empty());
        assert(path.push(0x2f) + piece =~= path.push(0x2f));
        assert(path.push(0x2f).drop_last() =~= path);
    } else {
        let shorter = piece.drop_last();
        assert forall|i: int| 0 <= i < shorter.len() implies #[trigger] shorter[i] != 0x2f by {
            assert(shorter[i] == piece[i]);
        }
        pieces_stand_between_separators(path, shorter);
        let whole = path.push(0x2f) + piece;
        assert(whole.drop_last() =~= path.push(0x2f) + shorter);
        assert(piece.last() == piece[piece.len() - 1]);
        assert(shorter.push(piece.last()) =~= piece);
        assert(segments(path).push(shorter).drop_last() =~= segments(path));
        assert(seq![shorter].drop_last().push(piece) =~= seq![piece]);
    }
}

/// A piece that is empty or `.` is no step, `..` is the step to the parent, and any other is the
/// step to what it names.
pub proof fn pieces_are_steps(piece: Seq<u8>)
    ensures
        segment_parts(piece) == if piece.len() == 0 || piece == seq![0x2eu8] {
            Seq::<Part>::empty()
        } else if piece == seq![0x2eu8, 0x2e] {
            seq![Part::Parent]
        } else {
            seq![Part::Name(piece)]
        },
{
}

/// A path goes on by the step of its last piece.
pub proof fn paths_go_on_by_their_last_piece(path: Seq<u8>, piece: Seq<u8>)
    requires
        path.len() > 0,
        is_one_piece(piece),
    ensures
        parts_of(path.push(0x2f) + piece) == parts_of(path) + segment_parts(piece),
{
    let whole = path.push(0x2f) + piece;
    pieces_stand_between_separators(path, piece);
    some_piece_is_first(path);
    assert(segments(whole).drop_last() =~= segments(path));
    assert(whole[0] == path[0]);
    assert(segments(whole)[0] == segments(path)[0]);
    assert(leading_parts(whole) == leading_parts(path));
    assert(parts_of(whole) =~= parts_of(path) + segment_parts(piece));
}

proof fn some_piece_is_first(path: Seq<u8>)
    ensures
        segments(path).len() > 0,
    decreases path.len(),
{
    if path.len() > 0 {
        some_piece_is_first(path.drop_last());
    }
}

/// A path without a separator is one step, where `.` stands for the current directory.
pub proof fn short_paths_are_one_step(piece: Seq<u8>)
    requires
        is_one_piece(piece),
    ensures
        !is_absolute(piece),
        parts_of(piece) == if piece == seq![0x2eu8] {
            seq![Part::Cur]
        } else {
            segment_parts(piece)
        },
{
    pieces_stand_between_separators(piece, piece);
    assert(seq![piece].drop_last() =~= Seq::<Seq<u8>>::empty());
    reveal_with_fuel(segments_parts, 2);
    assert(parts_of(piece) =~= if piece == seq![0x2eu8] {
        seq![Part::Cur]
    } else {
        segment_parts(piece)
    });
}

/// A path is absolute where it starts with `/`.
pub proof fn absolute_paths_start_with_a_separator(path: Seq<u8>)
    ensures
        is_absolute(path) == (path.len() > 0 && path[0] == 0x2f),
{
}

/// Paths are resolved by their spelling, piece by piece: nothing and `.` stay, `..` goes up and not
/// above the root, and a name goes down. Only absolute paths are.
pub proof fn paths_are_resolved_piece_by_piece(path: Seq<u8>, piece: Seq<u8>)
    requires
        is_one_piece(piece),
    ensures
        normalized(seq![0x2fu8]) == Some(Seq::<Seq<u8>>::empty()),
        path.len() == 0 || path[0] != 0x2f ==> normalized(path) is None,
        path.len() > 0 && path[0] == 0x2f ==> normalized(path.push(0x2f) + piece)
            == match normalized(path) {
            None => None,
            Some(names) => if piece.len() == 0 || piece == seq![0x2eu8] {
                Some(names)
            } else if piece == seq![0x2eu8, 0x2e] {
                if names.len() == 0 {
                    None
                } else {
                    Some(names.drop_last())
                }
            } else {
                Some(names.push(piece))
            },
        },
{
    let slash = seq![0x2fu8];
    assert(slash =~= Seq::<u8>::empty().push(0x2f) + Seq::<u8>::empty());
    pieces_stand_between_separators(Seq::empty(), Seq::empty());
    assert(segments(slash) == segments(Seq::<u8>::empty()).push(Seq::empty()));
    reveal_with_fuel(segments_parts, 3);
    let empty_pieces = segments(Seq::<u8>::empty());
    assert(empty_pieces.push(Seq::empty()).drop_last() =~= empty_pieces);
    assert(empty_pieces.drop_last() =~= Seq::<Seq<u8>>::empty());
    assert(parts_of(slash) =~= seq![Part::Root]);
    assert(seq![Part::Root].drop_last() =~= Seq::<Part>::empty());
    reveal_with_fuel(normalized_names, 2);
    if path.len() > 0 && path[0] == 0x2f {
        let whole = path.push(0x2f) + piece;
        assert(whole[0] == path[0]);
        paths_go_on_by_their_last_piece(path, piece);
        let parts = parts_of(path);
        if segment_parts(piece).len() > 0 {
            assert((parts + segment_parts(piece)).drop_last() =~= parts);
        } else {
            assert(parts + segment_parts(piece) =~= parts);
        }
    }
}

/// A resolved path is spelled from the root, each name behind a `/`.
pub proof fn resolved_paths_are_spelled_from_the_root(names: Seq<Seq<u8>>, name: Seq<u8>)
    ensures
        absolute_bytes(Seq::empty()) == seq![0x2fu8],
        absolute_bytes(seq![name]) == seq![0x2fu8] + name,
        names.len() > 0 ==> absolute_bytes(names.push(name)) == absolute_bytes(names) + seq![0x2fu8]
            + name,
        absolute_bytes(names).len() > 0,
        absolute_bytes(names)[0] == 0x2f,
{
    assert(seq![name].drop_last() =~= Seq::<Seq<u8>>::empty());
    reveal_with_fuel(separated, 2);
    assert(absolute_bytes(seq![name]) =~= seq![0x2fu8] + name);
    if names.len() > 0 {
        assert(names.push(name).drop_last() =~= names);
        assert(absolute_bytes(names.push(name)) =~= absolute_bytes(names) + seq![0x2fu8] + name);
        first_byte_is_the_separator(names);
    }
}

proof fn first_byte_is_the_separator(names: Seq<Seq<u8>>)
    requires
        names.len() > 0,
    ensures
        separated(names).len() > 0,
        separated(names)[0] == 0x2f,
    decreases names.len(),
{
    reveal_with_fuel(separated, 2);
    let before = separated(names.drop_last());
    if names.len() > 1 {
        first_byte_is_the_separator(names.drop_last());
        assert(separated(names)[0] == before[0]);
    } else {
        assert(before =~= Seq::<u8>::empty());
        assert(separated(names)[0] == before.push(0x2f)[0]);
    }
}

/// A name of an entry is not empty, holds no `/`, and is neither `.` nor `..`.
pub proof fn entries_have_plain_names(name: Seq<u8>)
    ensures
        is_entry_name(name) == (name.len() > 0 && is_one_piece(name) && name != seq![0x2eu8] && name
            != seq![0x2eu8, 0x2e]),
{
}

/// A path is joined to a directory with one `/` between them, unless there is one or the directory
/// is empty; an absolute path takes the directory's place.
pub proof fn paths_are_joined_by_one_separator(base: Seq<u8>, path: Seq<u8>)
    ensures
        path.len() > 0 && path[0] == 0x2f ==> joined_bytes(base, path) == path,
        path.len() == 0 || path[0] != 0x2f ==> joined_bytes(base, path) == if base.len() == 0 {
            path
        } else if base.last() == 0x2f {
            base + path
        } else {
            base + seq![0x2fu8] + path
        },
{
    if base.len() == 0 {
        assert(base + path =~= path);
    }
    assert(base.push(0x2f) + path =~= base + seq![0x2fu8] + path);
}

/// A message about a path says what is wrong, and then the path as it is shown.
pub proof fn messages_show_their_path(what: Seq<char>, path: Seq<u8>)
    ensures
        path_message(what, path) == what + lossy_text(path),
{
}

/// A list names entries where each of its names does.
pub proof fn each_name_is_an_entrys(names: Seq<Seq<u8>>, name: Seq<u8>)
    ensures
        are_entry_names(Seq::empty()),
        are_entry_names(names.push(name)) == (are_entry_names(names) && is_entry_name(name)),
{
    let more = names.push(name);
    assert(more[names.len() as int] == name);
    if are_entry_names(more) {
        assert forall|i: int| 0 <= i < names.len() implies is_entry_name(#[trigger] names[i]) by {
            assert(more[i] == names[i]);
        }
    }
}

} // verus!
