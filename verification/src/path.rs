//! Labels under which requests are counted: the request's path, cut after a number of segments.

use vstd::prelude::*;

verus! {

/// The pieces of a path between its slashes, empty ones included.
pub open spec fn pieces(path: Seq<char>) -> Seq<Seq<char>>
    decreases path.len(),
{
    if path.len() == 0 {
        seq![Seq::empty()]
    } else {
        let before = pieces(path.drop_last());
        if path.last() == '/' {
            before.push(Seq::empty())
        } else {
            before.drop_last().push(before.last().push(path.last()))
        }
    }
}

/// The segments of a path: its pieces that are not empty, in order.
pub open spec fn segments(path: Seq<char>) -> Seq<Seq<char>> {
    pieces(path).filter(|piece: Seq<char>| piece.len() > 0)
}

/// The first `limit` of the segments, or all where there are fewer.
pub open spec fn first_segments(list: Seq<Seq<char>>, limit: nat) -> Seq<Seq<char>> {
    if list.len() <= limit {
        list
    } else {
        list.take(limit as int)
    }
}

/// The segments with one slash between each two of them.
pub open spec fn joined(list: Seq<Seq<char>>) -> Seq<char>
    decreases list.len(),
{
    if list.len() == 0 {
        Seq::empty()
    } else if list.len() == 1 {
        list[0]
    } else {
        joined(list.drop_last()) + seq!['/'] + list.last()
    }
}

/// The label of a path: the path itself at level zero, else a slash and at most
/// `trim_level` segments.
pub open spec fn label(path: Seq<char>, trim_level: nat) -> Seq<char> {
    if trim_level == 0 {
        path
    } else {
        seq!['/'] + joined(first_segments(segments(path), trim_level))
    }
}

proof fn lemma_pieces_not_empty(path: Seq<char>)
    ensures
        pieces(path).len() > 0,
    decreases path.len(),
{
    if path.len() > 0 {
        lemma_pieces_not_empty(path.drop_last());
    }
}

proof fn lemma_no_segments()
    ensures
        pieces(Seq::empty()).last().len() == 0,
        segments(Seq::empty()) == Seq::<Seq<char>>::empty(),
{
    reveal(Seq::filter);
    let kept = |piece: Seq<char>| piece.len() > 0;
    let all = pieces(Seq::empty());
    assert(all.drop_last() =~= Seq::empty());
    assert(all.drop_last().filter(kept) =~= Seq::empty());
    assert(all.filter(kept) =~= Seq::empty());
}

/// How one more character changes the segments.
proof fn lemma_segments_push(path: Seq<char>, c: char)
    ensures
        pieces(path).len() > 0,
        pieces(path.push(c)).len() > 0,
        c == '/' ==> {
            &&& segments(path.push(c)) == segments(path)
            &&& pieces(path.push(c)).last().len() == 0
        },
        c != '/' && pieces(path).last().len() == 0 ==> {
            &&& segments(path.push(c)) == segments(path).push(seq![c])
            &&& pieces(path.push(c)).last().len() > 0
        },
        c != '/' && pieces(path).last().len() > 0 ==> {
            &&& segments(path).len() > 0
            &&& segments(path.push(c)) == segments(path).drop_last().push(
                segments(path).last().push(c),
            )
            &&& pieces(path.push(c)).last().len() > 0
        },
{
    reveal(Seq::filter);
    lemma_pieces_not_empty(path);
    let longer = path.push(c);
    assert(longer.drop_last() =~= path);
    let before = pieces(path);
    let after = pieces(longer);
    let kept = |piece: Seq<char>| piece.len() > 0;
    if c == '/' {
        assert(after.drop_last() =~= before);
    } else {
        assert(after.drop_last() =~= before.drop_last());
        if before.last().len() == 0 {
            assert(before.last().push(c) =~= seq![c]);
            assert(before.filter(kept) == before.drop_last().filter(kept));
        } else {
            let rest = before.drop_last().filter(kept);
            assert(before.filter(kept) == rest.push(before.last()));
            assert(rest.push(before.last()).drop_last() =~= rest);
        }
    }
}

/// How one more character changes the label.
proof fn lemma_label_push(path: Seq<char>, c: char, limit: nat)
    requires
        limit > 0,
    ensures
        ({
            let old = joined(first_segments(segments(path), limit));
            let new = joined(first_segments(segments(path.push(c)), limit));
            let count = segments(path).len();
            &&& c == '/' ==> new == old
            &&& c != '/' && pieces(path).last().len() == 0 ==> {
                &&& count == 0 ==> new == seq![c]
                &&& 0 < count < limit ==> new == old + seq!['/', c]
                &&& count >= limit ==> new == old
            }
            &&& c != '/' && pieces(path).last().len() > 0 ==> {
                &&& count <= limit ==> new == old.push(c)
                &&& count > limit ==> new == old
            }
        }),
{
    lemma_segments_push(path, c);
    let list = segments(path);
    let longer = segments(path.push(c));
    if c != '/' {
        if pieces(path).last().len() == 0 {
            assert(longer.drop_last() =~= list);
            if list.len() >= limit {
                assert(longer.take(limit as int) =~= list.take(limit as int));
                assert(list.take(list.len() as int) =~= list);
            } else if list.len() > 0 {
                assert(joined(list) + seq!['/'] + seq![c] =~= joined(list) + seq!['/', c]);
            }
        } else {
            if list.len() > limit {
                assert(longer.take(limit as int) =~= list.take(limit as int));
            } else {
                assert(longer.drop_last() =~= list.drop_last());
                if list.len() > 1 {
                    assert(joined(list.drop_last()) + seq!['/'] + list.last().push(c)
                        =~= (joined(list.drop_last()) + seq!['/'] + list.last()).push(c));
                }
            }
        }
    }
}

/// The label under which a request for `path` is counted.
pub fn path_label(path: &str, trim_level: u16) -> (result: String)
    ensures
        result@ == label(path@, trim_level as nat),
{
    if trim_level == 0 {
        return path.to_owned();
    }
    let limit: usize = trim_level as usize;
    let mut result = String::new();
    result.push('/');
    let mut seen: usize = 0;
    let mut within = false;
    proof {
        lemma_no_segments();
        assert(path@.take(0) =~= Seq::empty());
        assert(result@ =~= seq!['/'] + joined(Seq::empty()));
    }
    for c in chars: path.chars()
        invariant
            chars.seq() == path@,
            limit == trim_level,
            limit > 0,
            seen <= limit + 1,
            seen <= limit ==> seen == segments(path@.take(chars.index())).len(),
            seen > limit ==> segments(path@.take(chars.index())).len() > limit,
            within == (pieces(path@.take(chars.index())).last().len() > 0),
            result@ == seq!['/'] + joined(
                first_segments(segments(path@.take(chars.index())), limit as nat),
            ),
    {
        let ghost before = path@.take(chars.index());
        proof {
            assert(path@.take(chars.index() + 1) =~= before.push(c));
            lemma_segments_push(before, c);
            lemma_label_push(before, c, limit as nat);
        }
        if c == '/' {
            within = false;
        } else {
            if !within {
                within = true;
                if 0 < seen && seen < limit {
                    result.push('/');
                }
                if seen <= limit {
                    seen = seen + 1;
                }
            }
            if seen <= limit {
                result.push(c);
            }
        }
    }
    assert(path@.take(path@.len() as int) =~= path@);
    result
}

/// Holds of lists that segments can form: none is empty and none holds a slash.
pub open spec fn well_formed(list: Seq<Seq<char>>) -> bool {
    forall|i: int|
        0 <= i < list.len() ==> (#[trigger] list[i]).len() > 0 && !list[i].contains('/')
}

/// No segment of a path is empty, and none holds a slash.
pub proof fn lemma_segments_well_formed(path: Seq<char>)
    ensures
        well_formed(segments(path)),
    decreases path.len(),
{
    if path.len() == 0 {
        lemma_no_segments();
        assert(path =~= Seq::empty());
    } else {
        let shorter = path.drop_last();
        let c = path.last();
        assert(shorter.push(c) =~= path);
        lemma_segments_well_formed(shorter);
        lemma_segments_push(shorter, c);
        let before = segments(shorter);
        let after = segments(path);
        if c != '/' {
            assert(!seq![c].contains('/'));
            if pieces(shorter).last().len() > 0 {
                let last = before.last();
                assert(before[before.len() - 1] == last);
                assert(!last.push(c).contains('/')) by {
                    if last.push(c).contains('/') {
                        let i = choose|i: int| 0 <= i < last.push(c).len() && last.push(c)[i] == '/';
                        assert(last[i] == '/');
                    }
                }
            }
            assert forall|i: int| 0 <= i < after.len() implies (#[trigger] after[i]).len() > 0
                && !after[i].contains('/') by {
                if i < after.len() - 1 {
                    assert(after[i] == before[i]);
                }
            }
        }
    }
}

/// Behind a slash, a text without slashes becomes one more segment.
proof fn lemma_segments_append(path: Seq<char>, segment: Seq<char>)
    requires
        segment.len() > 0,
        !segment.contains('/'),
        pieces(path).last().len() == 0,
    ensures
        segments(path + segment) == segments(path).push(segment),
        pieces(path + segment).last().len() > 0,
    decreases segment.len(),
{
    let shorter = segment.drop_last();
    let c = segment.last();
    assert(path + segment =~= (path + shorter).push(c));
    assert(c == segment[segment.len() - 1]);
    assert(shorter.push(c) =~= segment);
    lemma_segments_push(path + shorter, c);
    if shorter.len() == 0 {
        assert(path + shorter =~= path);
        assert(seq![c] =~= segment);
    } else {
        assert(!shorter.contains('/')) by {
            if shorter.contains('/') {
                let i = choose|i: int| 0 <= i < shorter.len() && shorter[i] == '/';
                assert(segment[i] == '/');
            }
        }
        lemma_segments_append(path, shorter);
        assert(segments(path).push(shorter).drop_last() =~= segments(path));
    }
}

/// Joining segments behind a slash loses none of them and makes up none.
pub proof fn lemma_joined_segments(list: Seq<Seq<char>>)
    requires
        well_formed(list),
    ensures
        segments(seq!['/'] + joined(list)) == list,
    decreases list.len(),
{
    let root = seq!['/'];
    lemma_no_segments();
    lemma_segments_push(Seq::empty(), '/');
    assert(Seq::<char>::empty().push('/') =~= root);
    if list.len() == 0 {
        assert(root + joined(list) =~= root);
        assert(list =~= Seq::empty());
    } else {
        let last = list.last();
        assert(last == list[list.len() - 1]);
        if list.len() == 1 {
            lemma_segments_append(root, last);
            assert(list =~= Seq::<Seq<char>>::empty().push(last));
        } else {
            let rest = list.drop_last();
            assert forall|i: int| 0 <= i < rest.len() implies (#[trigger] rest[i]).len() > 0
                && !rest[i].contains('/') by {
                assert(rest[i] == list[i]);
            }
            lemma_joined_segments(rest);
            let before = root + joined(rest);
            lemma_segments_push(before, '/');
            lemma_segments_append(before.push('/'), last);
            assert(before.push('/') + last =~= root + joined(list));
            assert(rest.push(last) =~= list);
        }
    }
}

/// A label keeps exactly the first segments of the path: as many as the level says.
pub proof fn lemma_label_keeps_segments(path: Seq<char>, trim_level: nat)
    requires
        trim_level > 0,
    ensures
        segments(label(path, trim_level)) == first_segments(segments(path), trim_level),
        segments(label(path, trim_level)).len() <= trim_level,
        label(path, trim_level).len() > 0,
        label(path, trim_level)[0] == '/',
{
    let list = segments(path);
    let kept = first_segments(list, trim_level);
    lemma_segments_well_formed(path);
    assert forall|i: int| 0 <= i < kept.len() implies (#[trigger] kept[i]).len() > 0
        && !kept[i].contains('/') by {
        assert(kept[i] == list[i]);
    }
    lemma_joined_segments(kept);
}

/// Two paths share a label at a level above zero if and only if their first segments agree,
/// up to that level: slashes that are doubled or trail make no difference.
pub proof fn lemma_label_shared(path: Seq<char>, other: Seq<char>, trim_level: nat)
    requires
        trim_level > 0,
    ensures
        label(path, trim_level) == label(other, trim_level) <==> first_segments(
            segments(path),
            trim_level,
        ) == first_segments(segments(other), trim_level),
{
    lemma_label_keeps_segments(path, trim_level);
    lemma_label_keeps_segments(other, trim_level);
}

/// Cutting a label again cuts the path at the lower of the two levels, where level zero cuts
/// nothing. In particular a label is its own label.
pub proof fn lemma_label_twice(path: Seq<char>, first: nat, second: nat)
    ensures
        label(label(path, first), second) == label(
            path,
            if first == 0 {
                second
            } else if second == 0 || first <= second {
                first
            } else {
                second
            },
        ),
{
    if first > 0 && second > 0 {
        lemma_label_keeps_segments(path, first);
        let list = segments(path);
        if second < list.len() && second < first {
            assert(first_segments(list, first).take(second as int) =~= list.take(second as int));
        }
    }
}

proof fn lemma_segments_behind_slash(before: Seq<char>, behind: Seq<char>)
    ensures
        segments(before + seq!['/'] + behind) == segments(before) + segments(behind),
        pieces(before + seq!['/'] + behind).last().len() == 0 <==> pieces(behind).last().len() == 0,
    decreases behind.len(),
{
    let rooted = before + seq!['/'];
    if behind.len() == 0 {
        lemma_no_segments();
        lemma_segments_push(before, '/');
        assert(behind == Seq::<char>::empty());
        assert(rooted + behind == before.push('/'));
        assert(segments(before) + Seq::<Seq<char>>::empty() == segments(before));
    } else {
        let rest = behind.drop_last();
        let c = behind.last();
        assert(rest.push(c) == behind);
        assert((rooted + rest).push(c) == rooted + behind);
        lemma_segments_behind_slash(before, rest);
        lemma_segments_push(rest, c);
        lemma_segments_push(rooted + rest, c);
        let list = segments(before);
        if c != '/' {
            if pieces(rest).last().len() == 0 {
                assert((list + segments(rest)).push(seq![c]) == list + segments(rest).push(
                    seq![c],
                ));
            } else {
                let longer = segments(rest).last().push(c);
                assert((list + segments(rest)).last() == segments(rest).last());
                assert((list + segments(rest)).drop_last().push(longer) == list + segments(
                    rest,
                ).drop_last().push(longer));
            }
        }
    }
}

/// A slash parts the segments of a path: those before it and those behind it are the segments of
/// the whole. A text without a slash is one segment, and the empty text has none.
pub proof fn lemma_slashes_part_segments(before: Seq<char>, behind: Seq<char>, word: Seq<char>)
    requires
        !word.contains('/'),
        word.len() > 0,
    ensures
        segments(before + seq!['/'] + behind) == segments(before) + segments(behind),
        segments(word) == seq![word],
        segments(Seq::empty()).len() == 0,
{
    lemma_segments_behind_slash(before, behind);
    lemma_no_segments();
    lemma_segments_append(Seq::empty(), word);
    assert(Seq::<char>::empty() + word == word);
    assert(Seq::<Seq<char>>::empty().push(word) == seq![word]);
}

proof fn lemma_joined_is_tidy(list: Seq<Seq<char>>)
    requires
        well_formed(list),
        list.len() > 0,
    ensures
        joined(list).len() > 0,
        joined(list)[0] != '/',
        joined(list).last() != '/',
        forall|i: int|
            0 <= i < joined(list).len() - 1 ==> (#[trigger] joined(list)[i] != '/' || joined(list)[i
                + 1] != '/'),
    decreases list.len(),
{
    let last = list.last();
    assert(last == list[list.len() - 1]);
    assert forall|i: int| 0 <= i < last.len() implies #[trigger] last[i] != '/' by {
        if last[i] == '/' {
            assert(last.contains('/'));
        }
    }
    if list.len() > 1 {
        let rest = list.drop_last();
        assert forall|i: int| 0 <= i < rest.len() implies (#[trigger] rest[i]).len() > 0
            && !rest[i].contains('/') by {
            assert(rest[i] == list[i]);
        }
        lemma_joined_is_tidy(rest);
        let whole = joined(list);
        let before = joined(rest);
        assert(whole == before + seq!['/'] + last);
        assert forall|i: int| 0 <= i < whole.len() - 1 implies (#[trigger] whole[i] != '/'
            || whole[i + 1] != '/') by {
            if i < before.len() - 1 {
                assert(whole[i] == before[i] && whole[i + 1] == before[i + 1]);
            } else if i == before.len() - 1 {
                assert(whole[i] == before.last());
            } else if i == before.len() {
                assert(whole[i + 1] == last[0]);
            } else {
                assert(whole[i] == last[i - before.len() - 1]);
            }
        }
        assert(whole.last() == last.last());
        assert(whole[0] == before[0]);
    }
}

/// The label of a path is the path itself at level zero. Above it holds the first segments of the
/// path, all of them where there are not more than the level says and else as many as it says, and
/// it is tidy: it starts with a slash, ends with none unless it is a slash alone, and has no two
/// slashes in a row.
pub proof fn lemma_label_is_tidy(path: Seq<char>, trim_level: nat)
    ensures
        label(path, 0) == path,
        trim_level > 0 ==> {
            let cut = label(path, trim_level);
            let all = segments(path);
            let kept = segments(cut);
            &&& kept.len() == if all.len() <= trim_level {
                all.len()
            } else {
                trim_level
            }
            &&& forall|i: int| 0 <= i < kept.len() ==> #[trigger] kept[i] == all[i]
            &&& cut.len() > 0
            &&& cut[0] == '/'
            &&& cut.len() > 1 ==> cut.last() != '/'
            &&& forall|i: int|
                0 <= i < cut.len() - 1 ==> (#[trigger] cut[i] != '/' || cut[i + 1] != '/')
        },
{
    if trim_level > 0 {
        lemma_label_keeps_segments(path, trim_level);
        lemma_segments_well_formed(path);
        let kept = first_segments(segments(path), trim_level);
        assert forall|i: int| 0 <= i < kept.len() implies (#[trigger] kept[i]).len() > 0
            && !kept[i].contains('/') by {
            assert(kept[i] == segments(path)[i]);
        }
        let cut = label(path, trim_level);
        assert(cut == seq!['/'] + joined(kept));
        if kept.len() > 0 {
            lemma_joined_is_tidy(kept);
            assert forall|i: int| 0 <= i < cut.len() - 1 implies (#[trigger] cut[i] != '/' || cut[i
                + 1] != '/') by {
                if i > 0 {
                    assert(cut[i] == joined(kept)[i - 1] && cut[i + 1] == joined(kept)[i]);
                } else {
                    assert(cut[1] == joined(kept)[0]);
                }
            }
            assert(cut.last() == joined(kept).last());
        }
    }
}

} // verus!
