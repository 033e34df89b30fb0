//! What holds of cutting a path into its segments.

use vstd::prelude::*;
use crate::path::{join_slash, split_slash};

verus! {

/// A path is cut at every slash: the pieces of a split hold no `/`.
pub proof fn law_split_pieces_hold_no_slash(s: Seq<char>)
    ensures
        split_slash(s).len() >= 1,
        forall|i: int, j: int|
            0 <= i < split_slash(s).len() && 0 <= j < split_slash(s)[i].len()
                ==> #[trigger] split_slash(s)[i][j] != '/',
    decreases s.len(),
{
    if s.len() > 0 {
        law_split_pieces_hold_no_slash(s.drop_last());
    }
}

/// Nothing but the slashes is lost: the pieces of a split, joined with a
/// `/` between each two neighbours, give the sequence back.
pub proof fn law_join_undoes_split(s: Seq<char>)
    ensures
        join_slash(split_slash(s)) == s,
    decreases s.len(),
{
    if s.len() == 0 {
        assert(split_slash(s).len() == 1);
    } else {
        let shorter = s.drop_last();
        let before = split_slash(shorter);
        law_join_undoes_split(shorter);
        law_split_pieces_hold_no_slash(shorter);
        if s.last() == '/' {
            let pieces = before.push(Seq::<char>::empty());
            assert(pieces.drop_last() =~= before);
            assert(join_slash(pieces) =~= shorter + seq!['/']);
            assert(shorter + seq!['/'] =~= s);
        } else {
            let grown = before.last().push(s.last());
            let pieces = before.drop_last().push(grown);
            assert(pieces.drop_last() =~= before.drop_last());
            if before.len() == 1 {
                assert(join_slash(before) == before[0]);
                assert(join_slash(pieces) == grown);
                assert(grown =~= s);
            } else {
                assert(join_slash(before) == join_slash(before.drop_last()) + seq!['/']
                    + before.last());
                assert(join_slash(pieces) == join_slash(before.drop_last()) + seq!['/'] + grown);
                assert(join_slash(before.drop_last()) + seq!['/'] + grown =~= (join_slash(
                    before.drop_last(),
                ) + seq!['/'] + before.last()).push(s.last()));
                assert(shorter.push(s.last()) =~= s);
            }
        }
    }
}

/// The split is the only cut at the slashes: pieces that hold no `/`, joined
/// and split again, are the same pieces.
pub proof fn law_split_undoes_join(pieces: Seq<Seq<char>>)
    requires
        pieces.len() >= 1,
        forall|i: int, j: int|
            0 <= i < pieces.len() && 0 <= j < pieces[i].len() ==> #[trigger] pieces[i][j] != '/',
    ensures
        split_slash(join_slash(pieces)) == pieces,
    decreases join_slash(pieces).len(),
{
    let s = join_slash(pieces);
    let last = pieces.last();
    if pieces.len() == 1 && last.len() == 0 {
        assert(pieces[0] =~= Seq::<char>::empty());
        assert(pieces =~= seq![Seq::<char>::empty()]);
    } else if last.len() == 0 {
        let fewer = pieces.drop_last();
        assert(s =~= join_slash(fewer) + seq!['/']);
        assert(s.drop_last() =~= join_slash(fewer));
        assert forall|i: int, j: int|
            0 <= i < fewer.len() && 0 <= j < fewer[i].len() implies #[trigger] fewer[i][j]
            != '/' by {
            assert(fewer[i][j] == pieces[i][j]);
        }
        law_split_undoes_join(fewer);
        assert(last =~= Seq::<char>::empty());
        assert(fewer.push(Seq::<char>::empty()) =~= pieces);
    } else {
        let shorter = pieces.drop_last().push(last.drop_last());
        assert(shorter.drop_last() =~= pieces.drop_last());
        assert(last[last.len() - 1] != '/');
        if pieces.len() == 1 {
            assert(s == last);
            assert(join_slash(shorter) == last.drop_last());
        } else {
            assert(join_slash(shorter) =~= s.drop_last());
        }
        assert(s.last() == last.last());
        assert forall|i: int, j: int|
            0 <= i < shorter.len() && 0 <= j < shorter[i].len() implies #[trigger] shorter[i][j]
            != '/' by {
            assert(shorter[i][j] == pieces[i][j]);
        }
        law_split_undoes_join(shorter);
        assert(shorter.last().push(s.last()) =~= last);
        assert(shorter.drop_last().push(shorter.last().push(s.last())) =~= pieces);
    }
}

} // verus!
