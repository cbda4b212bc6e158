//! Review locations and the back/forward jump history.

use vstd::prelude::*;

use crate::presentation::PresentationLocation;

verus! {

/// Most origins that the jump history keeps.
pub const MAXIMUM_JUMP_COUNT: usize = 100;

/// A position in a disk source.
#[derive(Clone, Debug, PartialEq, Eq)]
pub struct SourceLocation {
    pub path: String,
    pub line: u32,
    pub byte_column: usize,
    pub end_line: u32,
    pub end_byte_column: usize,
}

impl SourceLocation {
    /// An equal copy of the location.
    pub fn duplicate(&self) -> (copy: Self)
        ensures
            copy == *self,
    {
        SourceLocation {
            path: self.path.clone(),
            line: self.line,
            byte_column: self.byte_column,
            end_line: self.end_line,
            end_byte_column: self.end_byte_column,
        }
    }
}

/// A place the user can return to, in the review unit (the change under
/// review) where it was visited.
#[derive(Clone, Debug, PartialEq, Eq)]
pub enum ReviewLocation {
    /// A row of a changed file.
    ReviewFile {
        review_unit: String,
        path: String,
        cursor: usize,
        presentation_location: Option<PresentationLocation>,
        column: usize,
    },
    /// A position in a disk source outside the review.
    Source { review_unit: String, location: SourceLocation },
    /// The revision itself, without a file.
    Revision { review_unit: String },
}

/// The review unit of a location.
pub open spec fn unit_of(location: ReviewLocation) -> Seq<char> {
    match location {
        ReviewLocation::ReviewFile { review_unit, .. } => review_unit@,
        ReviewLocation::Source { review_unit, .. } => review_unit@,
        ReviewLocation::Revision { review_unit } => review_unit@,
    }
}

/// Whether two locations are on the same line: in the same review unit,
/// the same file row (by its stable presentation location when both have
/// one, else by the cursor row), the same source line, or both the
/// revision.
pub open spec fn same_line(left: ReviewLocation, right: ReviewLocation) -> bool {
    unit_of(left) == unit_of(right) && match (left, right) {
        (
            ReviewLocation::ReviewFile {
                path,
                cursor,
                presentation_location,
                ..
            },
            ReviewLocation::ReviewFile {
                path: other_path,
                cursor: other_cursor,
                presentation_location: other_presentation_location,
                ..
            },
        ) => path@ == other_path@ && match (presentation_location, other_presentation_location) {
            (Some(location), Some(other_location)) => location == other_location,
            (None, None) => cursor == other_cursor,
            _ => false,
        },
        (
            ReviewLocation::Source { location, .. },
            ReviewLocation::Source { location: other_location, .. },
        ) => location.path@ == other_location.path@ && location.line == other_location.line,
        (ReviewLocation::Revision { .. }, ReviewLocation::Revision { .. }) => true,
        _ => false,
    }
}

impl ReviewLocation {
    /// An equal copy of the location.
    pub fn duplicate(&self) -> (copy: Self)
        ensures
            copy == *self,
    {
        match self {
            ReviewLocation::ReviewFile { review_unit, path, cursor, presentation_location, column } => {
                ReviewLocation::ReviewFile {
                    review_unit: review_unit.clone(),
                    path: path.clone(),
                    cursor: *cursor,
                    presentation_location: *presentation_location,
                    column: *column,
                }
            },
            ReviewLocation::Source { review_unit, location } => ReviewLocation::Source {
                review_unit: review_unit.clone(),
                location: location.duplicate(),
            },
            ReviewLocation::Revision { review_unit } => ReviewLocation::Revision {
                review_unit: review_unit.clone(),
            },
        }
    }

    /// Whether `self` and `other` are on the same line.
    pub fn same_line(&self, other: &Self) -> (same: bool)
        ensures
            same == same_line(*self, *other),
    {
        if !crate::wrap::same_text(self.review_unit(), other.review_unit()) {
            return false;
        }
        match (self, other) {
            (
                ReviewLocation::ReviewFile { path, cursor, presentation_location, .. },
                ReviewLocation::ReviewFile {
                    path: other_path,
                    cursor: other_cursor,
                    presentation_location: other_presentation_location,
                    ..
                },
            ) => *path == *other_path && match (
                presentation_location,
                other_presentation_location,
            ) {
                (Some(location), Some(other_location)) => *location == *other_location,
                (None, None) => *cursor == *other_cursor,
                _ => false,
            },
            (
                ReviewLocation::Source { location, .. },
                ReviewLocation::Source { location: other_location, .. },
            ) => location.path == other_location.path && location.line == other_location.line,
            (ReviewLocation::Revision { .. }, ReviewLocation::Revision { .. }) => true,
            _ => false,
        }
    }

    /// The review unit where the location was visited.
    pub fn review_unit(&self) -> (unit: &str)
        ensures
            unit@ == unit_of(*self),
    {
        match self {
            ReviewLocation::ReviewFile { review_unit, .. } => review_unit.as_str(),
            ReviewLocation::Source { review_unit, .. } => review_unit.as_str(),
            ReviewLocation::Revision { review_unit } => review_unit.as_str(),
        }
    }

    /// The same place in review unit `review_unit`.
    pub fn for_review_unit(&self, review_unit: &str) -> (moved: Self)
        ensures
            unit_of(moved) == review_unit@,
            match (*self, moved) {
                (
                    ReviewLocation::ReviewFile { path, cursor, presentation_location, column, .. },
                    ReviewLocation::ReviewFile {
                        path: p,
                        cursor: c,
                        presentation_location: l,
                        column: k,
                        ..
                    },
                ) => p == path && c == cursor && l == presentation_location && k == column,
                (ReviewLocation::Source { location, .. }, ReviewLocation::Source { location: l, .. }) => l
                    == location,
                (ReviewLocation::Revision { .. }, ReviewLocation::Revision { .. }) => true,
                _ => false,
            },
    {
        let review_unit = review_unit.to_owned();
        match self {
            ReviewLocation::ReviewFile { path, cursor, presentation_location, column, .. } => {
                ReviewLocation::ReviewFile {
                    review_unit,
                    path: path.clone(),
                    cursor: *cursor,
                    presentation_location: *presentation_location,
                    column: *column,
                }
            },
            ReviewLocation::Source { location, .. } => ReviewLocation::Source {
                review_unit,
                location: location.duplicate(),
            },
            ReviewLocation::Revision { .. } => ReviewLocation::Revision { review_unit },
        }
    }
}

/// What the review knows of one of its files: its path, and whether it
/// still needs review.
#[derive(Clone, Debug, PartialEq, Eq)]
pub struct FileReviewState {
    pub path: String,
    pub needs_review: bool,
}

pub open spec fn file_states_view(files: Seq<FileReviewState>) -> Seq<(Seq<char>, bool)> {
    files.map_values(|file: FileReviewState| (file.path@, file.needs_review))
}

/// The index of the first file whose path is `path`.
pub open spec fn first_with_path(files: Seq<(Seq<char>, bool)>, path: Seq<char>) -> Option<int>
    decreases files.len(),
{
    if files.len() == 0 {
        None
    } else if files[0].0 == path {
        Some(0)
    } else {
        match first_with_path(files.drop_first(), path) {
            Some(i) => Some(i + 1),
            None => None,
        }
    }
}

/// Whether the history can return to `location` while `current_unit` is
/// under review: always for a location of another review unit; else a
/// file row while its file still needs review; a disk source unless its
/// path, inside the repository (`source_path`), is a file of the review
/// that no longer needs review; the revision always.
pub open spec fn restorable(
    location: ReviewLocation,
    current_unit: Seq<char>,
    files: Seq<(Seq<char>, bool)>,
    source_path: Option<Seq<char>>,
) -> bool {
    unit_of(location) != current_unit || match location {
        ReviewLocation::ReviewFile { path, .. } => exists|i: int|
            0 <= i < files.len() && #[trigger] files[i].0 == path@ && files[i].1,
        ReviewLocation::Source { .. } => match source_path {
            None => true,
            Some(p) => match first_with_path(files, p) {
                None => true,
                Some(i) => files[i].1,
            },
        },
        ReviewLocation::Revision { .. } => true,
    }
}

proof fn lemma_first_with_path_at(files: Seq<(Seq<char>, bool)>, path: Seq<char>, i: int)
    requires
        0 <= i < files.len(),
        files[i].0 == path,
        forall|j: int| 0 <= j < i ==> #[trigger] files[j].0 != path,
    ensures
        first_with_path(files, path) == Some(i),
    decreases i,
{
    if i > 0 {
        let rest = files.drop_first();
        assert forall|j: int| 0 <= j < i - 1 implies #[trigger] rest[j].0 != path by {
            assert(rest[j] == files[j + 1]);
        }
        lemma_first_with_path_at(rest, path, i - 1);
    }
}

proof fn lemma_first_with_path_none(files: Seq<(Seq<char>, bool)>, path: Seq<char>)
    requires
        forall|j: int| 0 <= j < files.len() ==> #[trigger] files[j].0 != path,
    ensures
        first_with_path(files, path) is None,
    decreases files.len(),
{
    if files.len() > 0 {
        let rest = files.drop_first();
        assert forall|j: int| 0 <= j < rest.len() implies #[trigger] rest[j].0 != path by {
            assert(rest[j] == files[j + 1]);
        }
        lemma_first_with_path_none(rest, path);
    }
}

impl ReviewLocation {
    /// Whether the history can return to this location while
    /// `current_review_unit` is under review, given the files of the review
    /// and, for a disk source, its path inside the repository.
    #[verifier::loop_isolation(false)]
    pub fn is_restorable(
        &self,
        current_review_unit: &str,
        files: &Vec<FileReviewState>,
        source_review_path: Option<&str>,
    ) -> (can: bool)
        ensures
            can == restorable(
                *self,
                current_review_unit@,
                file_states_view(files@),
                match source_review_path {
                    Some(p) => Some(p@),
                    None => None,
                },
            ),
    {
        let ghost view = file_states_view(files@);
        if !crate::wrap::same_text(self.review_unit(), current_review_unit) {
            return true;
        }
        match self {
            ReviewLocation::ReviewFile { path, .. } => {
                let mut i: usize = 0;
                while i < files.len()
                    invariant
                        i <= files@.len(),
                        view == file_states_view(files@),
                        forall|j: int| 0 <= j < i ==> !(#[trigger] view[j].0 == path@ && view[j].1),
                    decreases files@.len() - i,
                {
                    if files[i].needs_review && files[i].path == *path {
                        assert(view[i as int].0 == path@ && view[i as int].1);
                        return true;
                    }
                    i += 1;
                }
                false
            },
            ReviewLocation::Source { .. } => {
                let p = match source_review_path {
                    Some(p) => p,
                    None => return true,
                };
                let mut i: usize = 0;
                while i < files.len()
                    invariant
                        i <= files@.len(),
                        view == file_states_view(files@),
                        forall|j: int| 0 <= j < i ==> #[trigger] view[j].0 != p@,
                    decreases files@.len() - i,
                {
                    if crate::wrap::same_text(files[i].path.as_str(), p) {
                        proof {
                            lemma_first_with_path_at(view, p@, i as int);
                        }
                        return files[i].needs_review;
                    }
                    i += 1;
                }
                proof {
                    lemma_first_with_path_none(view, p@);
                }
                true
            },
            ReviewLocation::Revision { .. } => true,
        }
    }
}

/// Locations before the current one (`older`, most recent last) and after
/// it (`newer`, nearest last).
#[derive(Clone, Debug, Default)]
pub struct LocationHistory {
    pub older: Vec<ReviewLocation>,
    pub newer: Vec<ReviewLocation>,
}

/// `locations` with every location on the line of `origin` left out.
pub open spec fn without_line(locations: Seq<ReviewLocation>, origin: ReviewLocation) -> Seq<
    ReviewLocation,
> {
    locations.filter(|location: ReviewLocation| !same_line(location, origin))
}

/// The older locations after a jump from `origin`: the newer locations join
/// the older ones in the order they were visited, every entry on the
/// origin's line leaves, the origin goes last, and the oldest entry drops
/// out beyond `MAXIMUM_JUMP_COUNT`.
pub open spec fn older_after_jump(
    older: Seq<ReviewLocation>,
    newer: Seq<ReviewLocation>,
    origin: ReviewLocation,
) -> Seq<ReviewLocation> {
    let kept = without_line(older + newer.reverse(), origin).push(origin);
    if kept.len() > MAXIMUM_JUMP_COUNT {
        kept.drop_first()
    } else {
        kept
    }
}

/// The result of walking back from `source` to the last location that
/// `restorable` accepts, moving the current location to `destination`
/// when it is restorable itself: the remaining source, the destination and
/// the location found.
pub open spec fn traversed(
    source: Seq<ReviewLocation>,
    destination: Seq<ReviewLocation>,
    current: ReviewLocation,
    restorable: spec_fn(ReviewLocation) -> bool,
) -> (Seq<ReviewLocation>, Seq<ReviewLocation>, Option<ReviewLocation>)
    decreases source.len(),
{
    if source.len() == 0 {
        (source, destination, None)
    } else if restorable(source.last()) {
        (
            source.drop_last(),
            if restorable(current) {
                destination.push(current)
            } else {
                destination
            },
            Some(source.last()),
        )
    } else {
        traversed(source.drop_last(), destination, current, restorable)
    }
}

/// Whether `is_restorable` is a function whose every answer agrees with
/// `restorable`.
pub open spec fn answers_as<F: Fn(&ReviewLocation) -> bool>(
    is_restorable: F,
    restorable: spec_fn(ReviewLocation) -> bool,
) -> bool {
    forall|location: ReviewLocation, answer: bool|
        is_restorable.ensures((&location,), answer) ==> answer == restorable(location)
}

fn without_origin(locations: Vec<ReviewLocation>, origin: &ReviewLocation) -> (kept: Vec<
    ReviewLocation,
>)
    ensures
        kept@ == without_line(locations@, *origin),
{
    let mut kept: Vec<ReviewLocation> = Vec::new();
    let mut i: usize = 0;
    while i < locations.len()
        invariant
            i <= locations.len(),
            kept@ == without_line(locations@.take(i as int), *origin),
        decreases locations.len() - i,
    {
        proof {
            assert(locations@.take(i + 1).drop_last() =~= locations@.take(i as int));
            assert(locations@.take(i + 1).last() == locations@[i as int]);
            reveal(Seq::filter);
        }
        if !locations[i].same_line(origin) {
            kept.push(locations[i].duplicate());
        }
        i += 1;
        proof {
            assert(kept@ =~= without_line(locations@.take(i as int), *origin));
        }
    }
    assert(locations@.take(locations.len() as int) =~= locations@);
    kept
}

impl LocationHistory {
    /// Record a jump from `origin` to `target`; a jump within one line is
    /// not recorded.
    pub fn record_jump(&mut self, origin: ReviewLocation, target: &ReviewLocation) -> (recorded:
        bool)
        ensures
            recorded == !same_line(origin, *target),
            !recorded ==> final(self).older@ == old(self).older@ && final(self).newer@ == old(
                self,
            ).newer@,
            recorded ==> final(self).older@ == older_after_jump(
                old(self).older@,
                old(self).newer@,
                origin,
            ) && final(self).newer@ == Seq::<ReviewLocation>::empty(),
    {
        if origin.same_line(target) {
            return false;
        }
        let ghost older = self.older@;
        let ghost newer = self.newer@;
        let mut joined: Vec<ReviewLocation> = Vec::new();
        std::mem::swap(&mut joined, &mut self.older);
        assert(joined@ == older);
        while self.newer.len() > 0
            invariant
                joined@ == older + newer.reverse().take(newer.len() - self.newer@.len()),
                self.newer@ == newer.take(self.newer@.len() as int),
                self.newer@.len() <= newer.len(),
            decreases self.newer@.len(),
        {
            let ghost n = self.newer@.len();
            let location = self.newer.pop().unwrap();
            proof {
                assert(location == newer[n - 1]);
                assert(newer.reverse().take(newer.len() - n + 1) =~= newer.reverse().take(
                    newer.len() - n,
                ).push(newer[n - 1]));
            }
            joined.push(location);
            proof {
                assert(self.newer@ =~= newer.take(self.newer@.len() as int));
            }
        }
        assert(newer.reverse().take(newer.len() as int) =~= newer.reverse());
        let mut kept = without_origin(joined, &origin);
        kept.push(origin);
        if kept.len() > MAXIMUM_JUMP_COUNT {
            let ghost before = kept@;
            kept.remove(0);
            assert(kept@ =~= before.drop_first());
        }
        self.older = kept;
        true
    }

    /// Walk back from `source` to its last restorable location, moving the
    /// current location to `destination` when it is restorable itself.
    fn traverse<F: Fn(&ReviewLocation) -> bool>(
        source: &mut Vec<ReviewLocation>,
        destination: &mut Vec<ReviewLocation>,
        current: ReviewLocation,
        is_restorable: F,
    ) -> (location: Option<ReviewLocation>)
        requires
            forall|location: &ReviewLocation| is_restorable.requires((location,)),
        ensures
            forall|restorable: spec_fn(ReviewLocation) -> bool|
                answers_as(is_restorable, restorable) ==> (final(source)@, final(destination)@, location)
                    == traversed(old(source)@, old(destination)@, current, restorable),
    {
        let ghost start = source@;
        let ghost dest = destination@;
        while source.len() > 0
            invariant
                forall|location: &ReviewLocation| is_restorable.requires((location,)),
                start == old(source)@,
                dest == old(destination)@,
                destination@ == dest,
                source@ == start.take(source@.len() as int),
                source@.len() <= start.len(),
                forall|restorable: spec_fn(ReviewLocation) -> bool|
                    answers_as(is_restorable, restorable) ==> traversed(
                        start,
                        dest,
                        current,
                        restorable,
                    ) == traversed(source@, dest, current, restorable),
            decreases source@.len(),
        {
            let ghost before = source@;
            let target = source.pop().unwrap();
            proof {
                assert(source@ =~= before.drop_last());
                assert(source@ =~= start.take(source@.len() as int));
            }
            if is_restorable(&target) {
                let keep = is_restorable(&current);
                if keep {
                    destination.push(current);
                }
                proof {
                    assert forall|restorable: spec_fn(ReviewLocation) -> bool|
                        answers_as(is_restorable, restorable) implies (
                        source@,
                        destination@,
                        Some(target),
                    ) == traversed(start, dest, current, restorable) by {
                        assert(restorable(target));
                        assert(restorable(current) == keep);
                        assert(traversed(start, dest, current, restorable) == traversed(
                            before,
                            dest,
                            current,
                            restorable,
                        ));
                    }
                }
                return Some(target);
            }
            proof {
                assert forall|restorable: spec_fn(ReviewLocation) -> bool|
                    answers_as(is_restorable, restorable) implies traversed(
                    start,
                    dest,
                    current,
                    restorable,
                ) == traversed(source@, dest, current, restorable) by {
                    assert(!restorable(target));
                }
            }
        }
        None
    }

    /// The location before the current one, skipping locations that
    /// cannot be restored.
    pub fn previous<F: Fn(&ReviewLocation) -> bool>(
        &mut self,
        current: ReviewLocation,
        is_restorable: F,
    ) -> (location: Option<ReviewLocation>)
        requires
            forall|location: &ReviewLocation| is_restorable.requires((location,)),
        ensures
            forall|restorable: spec_fn(ReviewLocation) -> bool|
                answers_as(is_restorable, restorable) ==> (final(self).older@, final(self).newer@, location)
                    == traversed(old(self).older@, old(self).newer@, current, restorable),
    {
        Self::traverse(&mut self.older, &mut self.newer, current, is_restorable)
    }

    /// The location after the current one, skipping locations that cannot
    /// be restored.
    pub fn next<F: Fn(&ReviewLocation) -> bool>(
        &mut self,
        current: ReviewLocation,
        is_restorable: F,
    ) -> (location: Option<ReviewLocation>)
        requires
            forall|location: &ReviewLocation| is_restorable.requires((location,)),
        ensures
            forall|restorable: spec_fn(ReviewLocation) -> bool|
                answers_as(is_restorable, restorable) ==> (final(self).newer@, final(self).older@, location)
                    == traversed(old(self).newer@, old(self).older@, current, restorable),
    {
        Self::traverse(&mut self.newer, &mut self.older, current, is_restorable)
    }
}

// ---------------------------------------------------------------------------
// Laws
// ---------------------------------------------------------------------------

/// A jump keeps at most `MAXIMUM_JUMP_COUNT` older locations when the whole
/// history held no more before it.
pub proof fn law_jump_history_stays_bounded(
    older: Seq<ReviewLocation>,
    newer: Seq<ReviewLocation>,
    origin: ReviewLocation,
)
    requires
        older.len() + newer.len() <= MAXIMUM_JUMP_COUNT,
    ensures
        older_after_jump(older, newer, origin).len() <= MAXIMUM_JUMP_COUNT,
{
    let joined = older + newer.reverse();
    joined.lemma_filter_len(|location: ReviewLocation| !same_line(location, origin));
}

/// A jump keeps the forward history: while the history holds fewer than
/// `MAXIMUM_JUMP_COUNT` locations, the older locations after a jump are the
/// older ones, then the newer ones from the nearest to the farthest, each
/// without the entries on the origin's line, then the origin; so every
/// older or newer location off the origin's line can still be gone back to.
pub proof fn law_jump_keeps_forward_history(
    older: Seq<ReviewLocation>,
    newer: Seq<ReviewLocation>,
    origin: ReviewLocation,
)
    requires
        older.len() + newer.len() < MAXIMUM_JUMP_COUNT,
    ensures
        older_after_jump(older, newer, origin) == without_line(older, origin) + without_line(
            newer.reverse(),
            origin,
        ) + seq![origin],
        forall|i: int|
            0 <= i < older.len() && !same_line(#[trigger] older[i], origin) ==> older_after_jump(
                older,
                newer,
                origin,
            ).contains(older[i]),
        forall|i: int|
            0 <= i < newer.len() && !same_line(#[trigger] newer[i], origin) ==> older_after_jump(
                older,
                newer,
                origin,
            ).contains(newer[i]),
{
    let pred = |location: ReviewLocation| !same_line(location, origin);
    let joined = older + newer.reverse();
    joined.lemma_filter_len(pred);
    Seq::filter_distributes_over_add(older, newer.reverse(), pred);
    let result = older_after_jump(older, newer, origin);
    assert(result == without_line(joined, origin).push(origin));
    assert(result =~= without_line(older, origin) + without_line(newer.reverse(), origin) + seq![
        origin,
    ]);
    assert forall|i: int|
        0 <= i < older.len() && !same_line(#[trigger] older[i], origin) implies result.contains(
        older[i],
    ) by {
        assert(joined[i] == older[i]);
        joined.lemma_filter_contains(pred, i);
        let k = choose|k: int|
            0 <= k < without_line(joined, origin).len() && without_line(joined, origin)[k]
                == older[i];
        assert(result[k] == older[i]);
    }
    assert forall|i: int|
        0 <= i < newer.len() && !same_line(#[trigger] newer[i], origin) implies result.contains(
        newer[i],
    ) by {
        let j = older.len() + (newer.len() - 1 - i);
        assert(joined[j] == newer[i]);
        joined.lemma_filter_contains(pred, j);
        let k = choose|k: int|
            0 <= k < without_line(joined, origin).len() && without_line(joined, origin)[k]
                == newer[i];
        assert(result[k] == newer[i]);
    }
}

/// After a jump the origin is the most recent older location and no other
/// older location is on its line.
pub proof fn law_jump_origin_is_latest_and_unique(
    older: Seq<ReviewLocation>,
    newer: Seq<ReviewLocation>,
    origin: ReviewLocation,
)
    ensures
        older_after_jump(older, newer, origin).len() > 0,
        older_after_jump(older, newer, origin).last() == origin,
        forall|i: int|
            0 <= i < older_after_jump(older, newer, origin).len() - 1 ==> !same_line(
                #[trigger] older_after_jump(older, newer, origin)[i],
                origin,
            ),
{
    let pred = |location: ReviewLocation| !same_line(location, origin);
    let joined = older + newer.reverse();
    let kept = without_line(joined, origin).push(origin);
    let result = older_after_jump(older, newer, origin);
    assert forall|i: int| 0 <= i < result.len() - 1 implies !same_line(
        #[trigger] result[i],
        origin,
    ) by {
        let j = if kept.len() > MAXIMUM_JUMP_COUNT { i + 1 } else { i };
        assert(result[i] == kept[j]);
        assert(kept[j] == without_line(joined, origin)[j]);
        joined.lemma_filter_pred(pred, j);
    }
}

/// Walking back from a history whose last location is restorable yields
/// that location.
proof fn lemma_traversed_last(
    source: Seq<ReviewLocation>,
    destination: Seq<ReviewLocation>,
    current: ReviewLocation,
    restorable: spec_fn(ReviewLocation) -> bool,
)
    requires
        source.len() > 0,
        restorable(source.last()),
    ensures
        traversed(source, destination, current, restorable).2 == Some(source.last()),
{
}

/// When walking back finds a location, a restorable current location is
/// pushed onto the destination.
proof fn lemma_traversed_found(
    source: Seq<ReviewLocation>,
    destination: Seq<ReviewLocation>,
    current: ReviewLocation,
    restorable: spec_fn(ReviewLocation) -> bool,
)
    requires
        traversed(source, destination, current, restorable).2 is Some,
        restorable(current),
    ensures
        traversed(source, destination, current, restorable).1 == destination.push(current),
        restorable(traversed(source, destination, current, restorable).2->0),
    decreases source.len(),
{
    if source.len() > 0 && !restorable(source.last()) {
        lemma_traversed_found(source.drop_last(), destination, current, restorable);
    }
}

/// Going back right after a jump returns to the jump's origin when the
/// origin can be restored.
pub proof fn law_back_after_jump_returns_to_origin(
    older: Seq<ReviewLocation>,
    newer: Seq<ReviewLocation>,
    origin: ReviewLocation,
    current: ReviewLocation,
    restorable: spec_fn(ReviewLocation) -> bool,
)
    requires
        restorable(origin),
    ensures
        traversed(
            older_after_jump(older, newer, origin),
            Seq::<ReviewLocation>::empty(),
            current,
            restorable,
        ).2 == Some(origin),
{
    law_jump_origin_is_latest_and_unique(older, newer, origin);
    lemma_traversed_last(
        older_after_jump(older, newer, origin),
        Seq::<ReviewLocation>::empty(),
        current,
        restorable,
    );
}

/// Going back and then forward returns to the starting location when it
/// can be restored.
pub proof fn law_forward_undoes_back(
    older: Seq<ReviewLocation>,
    newer: Seq<ReviewLocation>,
    current: ReviewLocation,
    restorable: spec_fn(ReviewLocation) -> bool,
)
    requires
        traversed(older, newer, current, restorable).2 is Some,
        restorable(current),
    ensures
        ({
            let back = traversed(older, newer, current, restorable);
            traversed(back.1, back.0, back.2->0, restorable).2 == Some(current)
        }),
{
    lemma_traversed_found(older, newer, current, restorable);
    let back = traversed(older, newer, current, restorable);
    lemma_traversed_last(back.1, back.0, back.2->0, restorable);
}

} // verus!
