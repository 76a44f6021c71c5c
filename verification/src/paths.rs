use vstd::prelude::*;

use crate::errors::ExtractError;

verus! {

// ---------------------------------------------------------------------------
// Model: entry names split into pieces, and the validation walk over them.
//
// An entry name is parsed platform-agnostically: both `/` and `\` separate
// pieces, an empty piece or `.` is a no-op, `..` refers to the parent
// directory, a piece holding `:` is treated as a drive or prefix marker, and
// a leading separator is a root marker. Validation is purely name-shape
// based: it never looks at the filesystem.
// ---------------------------------------------------------------------------

/// Whether a character separates path pieces.
pub open spec fn is_sep(c: char) -> bool {
    c == '/' || c == '\\'
}

/// The pieces of a name, split at separator characters. Empty pieces are
/// kept, so the result always holds at least one piece.
pub open spec fn split_pieces(s: Seq<char>) -> Seq<Seq<char>>
    decreases s.len(),
{
    if s.len() == 0 {
        seq![Seq::<char>::empty()]
    } else {
        let rest = split_pieces(s.drop_first());
        if is_sep(s[0]) {
            seq![Seq::<char>::empty()] + rest
        } else {
            seq![seq![s[0]] + rest[0]] + rest.drop_first()
        }
    }
}

/// A piece that changes nothing: empty, or the current-directory piece `.`.
pub open spec fn is_cur_piece(p: Seq<char>) -> bool {
    p.len() == 0 || (p.len() == 1 && p[0] == '.')
}

/// The parent-directory piece `..`.
pub open spec fn is_parent_piece(p: Seq<char>) -> bool {
    p.len() == 2 && p[0] == '.' && p[1] == '.'
}

/// A piece holding `:`, the shape of a drive or prefix marker.
pub open spec fn piece_has_colon(p: Seq<char>) -> bool {
    exists|i: int| 0 <= i < p.len() && p[i] == ':'
}

/// One step of the validation walk: classify the piece `p`, then continue
/// over `rest` with the depth updated. A normal piece descends one level
/// and is kept; `..` ascends one level and is kept, but may never take the
/// depth below zero; `.` and empty pieces are dropped; a piece with a
/// drive or prefix marker is rejected outright.
pub open spec fn validate_step(p: Seq<char>, rest: Seq<Seq<char>>, depth: int) -> Result<
    Seq<Seq<char>>,
    ExtractError,
>
    decreases rest.len(), 1int,
{
    if piece_has_colon(p) {
        Err(ExtractError::PrefixRejected)
    } else if is_cur_piece(p) {
        validate_pieces(rest, depth)
    } else if is_parent_piece(p) {
        if depth <= 0 {
            Err(ExtractError::PathEscapesRoot)
        } else {
            match validate_pieces(rest, depth - 1) {
                Ok(r) => Ok(seq![p] + r),
                Err(e) => Err(e),
            }
        }
    } else {
        if depth >= usize::MAX as int {
            Err(ExtractError::PathTooDeep)
        } else {
            match validate_pieces(rest, depth + 1) {
                Ok(r) => Ok(seq![p] + r),
                Err(e) => Err(e),
            }
        }
    }
}

/// The validation walk over a piece sequence, keeping the pieces that name
/// path components and tracking the directory depth.
pub open spec fn validate_pieces(ps: Seq<Seq<char>>, depth: int) -> Result<
    Seq<Seq<char>>,
    ExtractError,
>
    decreases ps.len(), 0int,
{
    if ps.len() == 0 {
        Ok(Seq::<Seq<char>>::empty())
    } else {
        validate_step(ps.first(), ps.drop_first(), depth)
    }
}

/// A leading separator marks an absolute name.
pub open spec fn has_root_marker(name: Seq<char>) -> bool {
    name.len() > 0 && is_sep(name[0])
}

/// What validating a decoded entry name yields: the kept component pieces,
/// or the first rejection found walking the name left to right.
pub open spec fn validate_spec(name: Seq<char>) -> Result<Seq<Seq<char>>, ExtractError> {
    if has_root_marker(name) {
        Err(ExtractError::AbsolutePathRejected)
    } else {
        validate_pieces(split_pieces(name), 0)
    }
}

// ---------------------------------------------------------------------------
// Split lemmas.
// ---------------------------------------------------------------------------

/// A name without separators is a single piece.
pub proof fn lemma_split_no_sep(s: Seq<char>)
    requires
        forall|j: int| 0 <= j < s.len() ==> !is_sep(s[j]),
    ensures
        split_pieces(s) == seq![s],
    decreases s.len(),
{
    if s.len() == 0 {
        assert(split_pieces(s) =~~= seq![s]);
    } else {
        lemma_split_no_sep(s.drop_first());
        assert(seq![s[0]] + s.drop_first() =~= s);
        assert(split_pieces(s) =~~= seq![s]);
    }
}

/// Splitting at the first separator: the head piece is everything before
/// it, and the rest is the split of everything after it.
pub proof fn lemma_split_at_sep(s: Seq<char>, k: int)
    requires
        0 <= k < s.len(),
        is_sep(s[k]),
        forall|j: int| 0 <= j < k ==> !is_sep(s[j]),
    ensures
        split_pieces(s) == seq![s.take(k)] + split_pieces(s.skip(k + 1)),
    decreases k,
{
    if k == 0 {
        assert(s.take(0) =~= Seq::<char>::empty());
        assert(s.skip(1) =~= s.drop_first());
        assert(split_pieces(s) =~~= seq![s.take(0)] + split_pieces(s.skip(1)));
    } else {
        let t = s.drop_first();
        assert(t[k - 1] == s[k]);
        assert(forall|j: int| 0 <= j < k - 1 ==> !is_sep(t[j]));
        lemma_split_at_sep(t, k - 1);
        assert(seq![s[0]] + t.take(k - 1) =~= s.take(k));
        assert(t.skip(k) =~= s.skip(k + 1));
        assert(split_pieces(s) =~~= seq![s.take(k)] + split_pieces(s.skip(k + 1)));
    }
}

/// Unfolding the walk over an explicitly cons-ed piece sequence.
pub proof fn lemma_validate_cons(p: Seq<char>, rest: Seq<Seq<char>>, depth: int)
    ensures
        validate_pieces(seq![p] + rest, depth) == validate_step(p, rest, depth),
{
    let ps = seq![p] + rest;
    assert(ps.first() == p);
    assert(ps.drop_first() =~~= rest);
}

// ---------------------------------------------------------------------------
// Depth accounting over pieces.
// ---------------------------------------------------------------------------

/// The number of nonempty pieces.
pub open spec fn count_nonempty(ps: Seq<Seq<char>>) -> int
    decreases ps.len(),
{
    if ps.len() == 0 {
        0
    } else {
        (if ps.first().len() > 0 {
            1int
        } else {
            0int
        }) + count_nonempty(ps.drop_first())
    }
}

/// How one piece changes the directory depth.
pub open spec fn piece_delta(p: Seq<char>) -> int {
    if is_cur_piece(p) {
        0
    } else if is_parent_piece(p) {
        -1
    } else {
        1
    }
}

/// The net depth change over a piece sequence.
pub open spec fn net_depth(ps: Seq<Seq<char>>) -> int
    decreases ps.len(),
{
    if ps.len() == 0 {
        0
    } else {
        piece_delta(ps.first()) + net_depth(ps.drop_first())
    }
}

/// Whether some prefix of the pieces takes the depth below zero when the
/// walk starts at `depth`.
pub open spec fn goes_negative_from(ps: Seq<Seq<char>>, depth: int) -> bool {
    exists|k: int| 0 <= k <= ps.len() && depth + net_depth(ps.take(k)) < 0
}

/// Whether any piece holds a drive or prefix marker.
pub open spec fn has_prefix_piece(ps: Seq<Seq<char>>) -> bool {
    exists|i: int| 0 <= i < ps.len() && piece_has_colon(ps[i])
}

/// Unfolding the net depth of an explicitly cons-ed piece sequence.
pub proof fn lemma_net_depth_cons(p: Seq<char>, q: Seq<Seq<char>>)
    ensures
        net_depth(seq![p] + q) == piece_delta(p) + net_depth(q),
{
    let ps = seq![p] + q;
    assert(ps.first() == p);
    assert(ps.drop_first() =~~= q);
}

/// A split has at least one piece.
pub proof fn lemma_split_len(s: Seq<char>)
    ensures
        split_pieces(s).len() >= 1,
    decreases s.len(),
{
    if s.len() > 0 {
        lemma_split_len(s.drop_first());
    }
}

/// A count of pieces is never negative.
pub proof fn lemma_count_nonempty_nonneg(ps: Seq<Seq<char>>)
    ensures
        count_nonempty(ps) >= 0,
    decreases ps.len(),
{
    if ps.len() > 0 {
        lemma_count_nonempty_nonneg(ps.drop_first());
    }
}

/// A name yields at most one nonempty piece per character.
pub proof fn lemma_count_nonempty_le_len(s: Seq<char>)
    ensures
        count_nonempty(split_pieces(s)) <= s.len(),
    decreases s.len(),
{
    if s.len() == 0 {
        assert(split_pieces(s) =~~= seq![Seq::<char>::empty()]);
        assert(seq![Seq::<char>::empty()].drop_first() =~~= Seq::<Seq<char>>::empty());
        assert(count_nonempty(Seq::<Seq<char>>::empty()) == 0);
    } else {
        let rest = split_pieces(s.drop_first());
        lemma_count_nonempty_le_len(s.drop_first());
        lemma_split_len(s.drop_first());
        if is_sep(s[0]) {
            let ps = seq![Seq::<char>::empty()] + rest;
            assert(ps.first().len() == 0);
            assert(ps.drop_first() =~~= rest);
        } else {
            let head = seq![s[0]] + rest[0];
            let ps = seq![head] + rest.drop_first();
            assert(ps.first() == head);
            assert(ps.drop_first() =~~= rest.drop_first());
            assert(count_nonempty(rest) == (if rest.first().len() > 0 {
                1int
            } else {
                0int
            }) + count_nonempty(rest.drop_first()));
        }
    }
}

// ---------------------------------------------------------------------------
// Outcome of the walk for safely and unsafely shaped names.
// ---------------------------------------------------------------------------

/// The walk succeeds on pieces without prefix markers whose depth never
/// goes below zero (and whose depth counter cannot overflow).
proof fn lemma_validate_pieces_ok(ps: Seq<Seq<char>>, depth: int)
    requires
        0 <= depth,
        depth + count_nonempty(ps) <= usize::MAX as int,
        !has_prefix_piece(ps),
        !goes_negative_from(ps, depth),
    ensures
        validate_pieces(ps, depth) is Ok,
    decreases ps.len(),
{
    if ps.len() == 0 {
        return ;
    }
    let p = ps.first();
    let rest = ps.drop_first();
    lemma_count_nonempty_nonneg(rest);
    assert(count_nonempty(ps) == (if p.len() > 0 {
        1int
    } else {
        0int
    }) + count_nonempty(rest));
    assert(!piece_has_colon(p));
    assert(!has_prefix_piece(rest)) by {
        if has_prefix_piece(rest) {
            let i = choose|i: int| 0 <= i < rest.len() && piece_has_colon(rest[i]);
            assert(ps[i + 1] == rest[i]);
        }
    }
    assert(forall|k: int|
        0 <= k <= rest.len() ==> ps.take(k + 1) =~= seq![p] + rest.take(k));
    assert forall|k: int| 0 <= k <= rest.len() implies depth + piece_delta(p) + net_depth(
        rest.take(k),
    ) >= 0 by {
        lemma_net_depth_cons(p, rest.take(k));
        assert(depth + net_depth(ps.take(k + 1)) >= 0);
    }
    if is_cur_piece(p) {
        lemma_validate_pieces_ok(rest, depth);
    } else if is_parent_piece(p) {
        assert(depth >= 1) by {
            lemma_net_depth_cons(p, rest.take(0));
            assert(rest.take(0) =~~= Seq::<Seq<char>>::empty());
            assert(ps.take(1) =~= seq![p] + rest.take(0));
            assert(depth + net_depth(ps.take(1)) >= 0);
        }
        lemma_validate_pieces_ok(rest, depth - 1);
    } else {
        assert(p.len() > 0);
        lemma_validate_pieces_ok(rest, depth + 1);
    }
}

/// The walk rejects pieces holding a prefix marker or taking the depth
/// below zero, and with nothing else to blame the error is the matching
/// one.
proof fn lemma_validate_pieces_err(ps: Seq<Seq<char>>, depth: int)
    requires
        0 <= depth,
        depth + count_nonempty(ps) <= usize::MAX as int,
        has_prefix_piece(ps) || goes_negative_from(ps, depth),
    ensures
        validate_pieces(ps, depth) matches Err(e) && (e == ExtractError::PrefixRejected || e
            == ExtractError::PathEscapesRoot),
    decreases ps.len(),
{
    if ps.len() == 0 {
        assert(!has_prefix_piece(ps));
        assert(!goes_negative_from(ps, depth)) by {
            if goes_negative_from(ps, depth) {
                let k = choose|k: int| 0 <= k <= ps.len() && depth + net_depth(ps.take(k)) < 0;
                assert(ps.take(k) =~~= ps);
            }
        }
        return ;
    }
    let p = ps.first();
    let rest = ps.drop_first();
    lemma_count_nonempty_nonneg(rest);
    assert(count_nonempty(ps) == (if p.len() > 0 {
        1int
    } else {
        0int
    }) + count_nonempty(rest));
    if piece_has_colon(p) {
        return ;
    }
    assert(forall|k: int|
        0 <= k <= rest.len() ==> ps.take(k + 1) =~= seq![p] + rest.take(k));
    if is_parent_piece(p) && depth == 0 {
        return ;
    }
    let new_depth = if is_cur_piece(p) {
        depth
    } else if is_parent_piece(p) {
        depth - 1
    } else {
        depth + 1
    };
    assert(has_prefix_piece(rest) || goes_negative_from(rest, new_depth)) by {
        if has_prefix_piece(ps) {
            let i = choose|i: int| 0 <= i < ps.len() && piece_has_colon(ps[i]);
            assert(i != 0);
            assert(rest[i - 1] == ps[i]);
        } else {
            let k = choose|k: int| 0 <= k <= ps.len() && depth + net_depth(ps.take(k)) < 0;
            assert(k != 0) by {
                assert(ps.take(0) =~~= Seq::<Seq<char>>::empty());
            }
            lemma_net_depth_cons(p, rest.take(k - 1));
            assert(ps.take(k) =~= seq![p] + rest.take(k - 1));
            assert(new_depth + net_depth(rest.take(k - 1)) < 0);
        }
    }
    if !is_cur_piece(p) && !is_parent_piece(p) {
        assert(p.len() > 0);
        assert(depth < usize::MAX as int);
    }
    lemma_validate_pieces_err(rest, new_depth);
}

/// The components a successful walk keeps: no piece is empty or `.`, and
/// starting from the walk's depth no prefix of them descends below zero.
proof fn lemma_validate_ok_shape(ps: Seq<Seq<char>>, depth: int)
    requires
        0 <= depth,
    ensures
        validate_pieces(ps, depth) matches Ok(r) ==> (forall|i: int|
            0 <= i < r.len() ==> !is_cur_piece(r[i])) && (forall|k: int|
            0 <= k <= r.len() ==> depth + net_depth(r.take(k)) >= 0),
    decreases ps.len(),
{
    if ps.len() == 0 {
        match validate_pieces(ps, depth) {
            Ok(r) => {
                assert(forall|k: int| 0 <= k <= r.len() ==> r.take(k) =~~= r);
            },
            Err(_) => {},
        }
        return ;
    }
    let p = ps.first();
    let rest = ps.drop_first();
    if piece_has_colon(p) {
        return ;
    }
    if is_cur_piece(p) {
        lemma_validate_ok_shape(rest, depth);
        return ;
    }
    let new_depth = if is_parent_piece(p) {
        depth - 1
    } else {
        depth + 1
    };
    if is_parent_piece(p) && depth <= 0 {
        return ;
    }
    if !is_parent_piece(p) && depth >= usize::MAX as int {
        return ;
    }
    lemma_validate_ok_shape(rest, new_depth);
    match validate_pieces(rest, new_depth) {
        Ok(rr) => {
            let r = seq![p] + rr;
            assert forall|i: int| 0 <= i < r.len() implies !is_cur_piece(r[i]) by {
                if i > 0 {
                    assert(r[i] == rr[i - 1]);
                }
            }
            assert forall|k: int| 0 <= k <= r.len() implies depth + net_depth(r.take(k)) >= 0 by {
                if k == 0 {
                    assert(r.take(0) =~~= Seq::<Seq<char>>::empty());
                } else {
                    assert(r.take(k) =~= seq![p] + rr.take(k - 1));
                    lemma_net_depth_cons(p, rr.take(k - 1));
                    assert(new_depth + net_depth(rr.take(k - 1)) >= 0);
                }
            }
        },
        Err(_) => {},
    }
}

// ---------------------------------------------------------------------------
// Resolving components against a base path.
// ---------------------------------------------------------------------------

/// The directory a component sequence lands in when walked from `base`:
/// a component names a child, `..` steps back to the parent.
pub open spec fn resolve(base: Seq<Seq<char>>, comps: Seq<Seq<char>>) -> Seq<Seq<char>>
    decreases comps.len(),
{
    if comps.len() == 0 {
        base
    } else if is_parent_piece(comps.first()) {
        resolve(base.drop_last(), comps.drop_first())
    } else {
        resolve(base.push(comps.first()), comps.drop_first())
    }
}

/// Components that never descend below their origin resolve strictly
/// below the base: the base is kept as a prefix, and what is appended has
/// exactly the components' net depth.
proof fn lemma_resolve_split(base: Seq<Seq<char>>, extra: Seq<Seq<char>>, comps: Seq<Seq<char>>)
    requires
        forall|i: int| 0 <= i < comps.len() ==> !is_cur_piece(comps[i]),
        forall|k: int| 0 <= k <= comps.len() ==> extra.len() + net_depth(comps.take(k)) >= 0,
    ensures
        resolve(base + extra, comps) == base + resolve(extra, comps),
        resolve(extra, comps).len() == extra.len() + net_depth(comps),
    decreases comps.len(),
{
    if comps.len() == 0 {
        return ;
    }
    let p = comps.first();
    let rest = comps.drop_first();
    assert(forall|k: int|
        0 <= k <= rest.len() ==> comps.take(k + 1) =~= seq![p] + rest.take(k));
    lemma_net_depth_cons(p, rest);
    assert(comps.take(comps.len() as int) =~~= comps);
    if is_parent_piece(p) {
        assert(extra.len() >= 1) by {
            assert(comps.take(1) =~= seq![p] + rest.take(0));
            assert(rest.take(0) =~~= Seq::<Seq<char>>::empty());
            lemma_net_depth_cons(p, rest.take(0));
            assert(extra.len() + net_depth(comps.take(1)) >= 0);
        }
        assert((base + extra).drop_last() =~= base + extra.drop_last());
        assert forall|k: int| 0 <= k <= rest.len() implies extra.drop_last().len() + net_depth(
            rest.take(k),
        ) >= 0 by {
            lemma_net_depth_cons(p, rest.take(k));
            assert(extra.len() + net_depth(comps.take(k + 1)) >= 0);
        }
        lemma_resolve_split(base, extra.drop_last(), rest);
    } else {
        assert((base + extra).push(p) =~= base + extra.push(p));
        assert forall|k: int| 0 <= k <= rest.len() implies extra.push(p).len() + net_depth(
            rest.take(k),
        ) >= 0 by {
            lemma_net_depth_cons(p, rest.take(k));
            assert(extra.len() + net_depth(comps.take(k + 1)) >= 0);
        }
        lemma_resolve_split(base, extra.push(p), rest);
    }
}

// ---------------------------------------------------------------------------
// The validator's safety laws.
// ---------------------------------------------------------------------------

/// A name holding a root marker, a prefix marker, or parent references
/// whose cumulative depth goes negative is always rejected, with the
/// matching error.
pub proof fn lemma_unsafe_name_rejected(name: Seq<char>)
    requires
        name.len() <= usize::MAX as int,
        has_root_marker(name) || has_prefix_piece(split_pieces(name)) || goes_negative_from(
            split_pieces(name),
            0,
        ),
    ensures
        validate_spec(name) matches Err(e) && (e == ExtractError::AbsolutePathRejected || e
            == ExtractError::PrefixRejected || e == ExtractError::PathEscapesRoot),
{
    if !has_root_marker(name) {
        lemma_count_nonempty_le_len(name);
        lemma_validate_pieces_err(split_pieces(name), 0);
    }
}

/// A name with no root marker, no prefix marker, and only non-escaping
/// parent references is always accepted.
pub proof fn lemma_safe_name_accepted(name: Seq<char>)
    requires
        name.len() <= usize::MAX as int,
        !has_root_marker(name),
        !has_prefix_piece(split_pieces(name)),
        !goes_negative_from(split_pieces(name), 0),
    ensures
        validate_spec(name) is Ok,
{
    lemma_count_nonempty_le_len(name);
    lemma_validate_pieces_ok(split_pieces(name), 0);
}

/// A validated path that descends at least one level resolves to a strict
/// descendant of every destination root: the root is kept as a prefix and
/// at least one component is appended below it, so the target is never
/// the root itself nor an ancestor of it.
pub proof fn lemma_validated_path_stays_below_root(name: Seq<char>, root: Seq<Seq<char>>)
    requires
        validate_spec(name) matches Ok(c) && net_depth(c) >= 1,
    ensures
        validate_spec(name) matches Ok(c) && resolve(root, c) == root + resolve(
            Seq::<Seq<char>>::empty(),
            c,
        ) && resolve(Seq::<Seq<char>>::empty(), c).len() == net_depth(c),
{
    match validate_spec(name) {
        Ok(c) => {
            lemma_validate_ok_shape(split_pieces(name), 0);
            lemma_resolve_split(root, Seq::<Seq<char>>::empty(), c);
            assert(root + Seq::<Seq<char>>::empty() =~~= root);
        },
        Err(_) => {},
    }
}

// ---------------------------------------------------------------------------
// The validated relative path and the validator.
// ---------------------------------------------------------------------------

/// A relative path that passed validation: its components hold no
/// separator, no drive marker and no NUL, `.` pieces are dropped, and the
/// remaining `..` pieces never take the path above its origin.
#[derive(Debug)]
pub struct ValidatedRelativePath {
    pub components: Vec<String>,
}

impl View for ValidatedRelativePath {
    type V = Seq<Seq<char>>;

    open spec fn view(&self) -> Seq<Seq<char>> {
        self.components.deep_view()
    }
}

/// The kind of one piece of an entry name.
enum PieceKind {
    Marker,
    Skip,
    Ascend,
    Descend,
}

/// Whether the character at `i` is a piece separator.
fn is_sep_at(s: &str, i: usize) -> (r: bool)
    requires
        i < s@.len(),
    ensures
        r == is_sep(s@[i as int]),
{
    let c = s.get_char(i);
    c == '/' || c == '\\'
}

/// Classify the piece of `name` that spans `start..end`.
fn classify_piece(name: &str, start: usize, end: usize) -> (r: PieceKind)
    requires
        start <= end <= name@.len(),
    ensures
        ({
            let p = name@.subrange(start as int, end as int);
            match r {
                PieceKind::Marker => piece_has_colon(p),
                PieceKind::Skip => !piece_has_colon(p) && is_cur_piece(p),
                PieceKind::Ascend => !piece_has_colon(p) && !is_cur_piece(p) && is_parent_piece(p),
                PieceKind::Descend => !piece_has_colon(p) && !is_cur_piece(p) && !is_parent_piece(
                    p,
                ),
            }
        }),
{
    let ghost p = name@.subrange(start as int, end as int);
    let mut j: usize = start;
    while j < end
        invariant
            start <= j <= end <= name@.len(),
            p == name@.subrange(start as int, end as int),
            forall|k: int| start <= k < j ==> name@[k] != ':',
        decreases end - j,
    {
        if name.get_char(j) == ':' {
            proof {
                assert(p[j - start] == name@[j as int]);
            }
            return PieceKind::Marker;
        }
        j += 1;
    }
    proof {
        assert(forall|i: int| 0 <= i < p.len() ==> p[i] == name@[start + i] && p[i] != ':');
    }
    let len = end - start;
    if len == 0 {
        return PieceKind::Skip;
    }
    if len == 1 && name.get_char(start) == '.' {
        return PieceKind::Skip;
    }
    if len == 2 && name.get_char(start) == '.' && name.get_char(start + 1) == '.' {
        return PieceKind::Ascend;
    }
    PieceKind::Descend
}

/// What the walk still owes once `acc` components are already kept: the
/// remaining walk's components appended to `acc`, or its error.
pub open spec fn combine(acc: Seq<Seq<char>>, rest: Result<Seq<Seq<char>>, ExtractError>) -> Result<
    Seq<Seq<char>>,
    ExtractError,
> {
    match rest {
        Ok(r) => Ok(acc + r),
        Err(e) => Err(e),
    }
}

/// Parse a decoded entry name into path components and classify its
/// safety. Walking the pieces left to right, the first offence decides:
/// a leading separator is rejected as absolute, a piece holding `:` as a
/// prefix marker, a `..` that would ascend above the origin as an escape,
/// and a depth counter overflow as too deep. On success the kept
/// components are returned; the filesystem is never consulted.
pub fn validate_entry_name(name: &str) -> (r: Result<ValidatedRelativePath, ExtractError>)
    ensures
        r is Ok <==> validate_spec(name@) is Ok,
        r matches Ok(v) ==> validate_spec(name@) matches Ok(c) && v@ == c,
        r matches Err(e) ==> validate_spec(name@) matches Err(d) && d == e,
{
    let n = name.unicode_len();
    if n > 0 && is_sep_at(name, 0) {
        return Err(ExtractError::AbsolutePathRejected);
    }
    let mut comps: Vec<String> = Vec::new();
    let mut depth: usize = 0;
    let mut start: usize = 0;
    let mut done: bool = false;
    proof {
        assert(name@.skip(0) =~= name@);
        assert(comps.deep_view() =~~= Seq::<Seq<char>>::empty());
        match validate_pieces(split_pieces(name@), 0) {
            Ok(rr) => {
                assert(comps.deep_view() + rr =~~= rr);
            },
            Err(_) => {},
        }
    }
    while !done
        invariant
            n == name@.len(),
            !done ==> start <= n && combine(
                comps.deep_view(),
                validate_pieces(split_pieces(name@.skip(start as int)), depth as int),
            ) == validate_spec(name@),
            done ==> validate_spec(name@) == Ok::<Seq<Seq<char>>, ExtractError>(comps.deep_view()),
        decreases n - start, (if done { 0int } else { 1int }),
    {
        let mut end: usize = start;
        while end < n && !is_sep_at(name, end)
            invariant
                start <= end <= n,
                n == name@.len(),
                forall|j: int| start <= j < end ==> !is_sep(name@[j]),
            decreases n - end,
        {
            end += 1;
        }
        let ghost s_rem = name@.skip(start as int);
        let ghost p = name@.subrange(start as int, end as int);
        let ghost rest_pieces = if end < n {
            split_pieces(name@.skip(end + 1))
        } else {
            Seq::<Seq<char>>::empty()
        };
        proof {
            assert(forall|j: int|
                0 <= j < end - start ==> s_rem[j] == name@[start + j] && !is_sep(s_rem[j]));
            if end < n {
                assert(s_rem[end - start] == name@[end as int]);
                lemma_split_at_sep(s_rem, end - start);
                assert(s_rem.take(end - start) =~= p);
                assert(s_rem.skip(end - start + 1) =~= name@.skip(end + 1));
                assert(split_pieces(s_rem) == seq![p] + rest_pieces);
            } else {
                lemma_split_no_sep(s_rem);
                assert(s_rem =~= p);
                assert(seq![p] + rest_pieces =~~= seq![p]);
                assert(split_pieces(s_rem) == seq![p] + rest_pieces);
            }
            lemma_validate_cons(p, rest_pieces, depth as int);
        }
        let kind = classify_piece(name, start, end);
        match kind {
            PieceKind::Marker => {
                return Err(ExtractError::PrefixRejected);
            },
            PieceKind::Skip => {},
            PieceKind::Ascend => {
                if depth == 0 {
                    return Err(ExtractError::PathEscapesRoot);
                }
                depth = depth - 1;
                let piece = name.substring_char(start, end).to_owned();
                proof {
                    let old_dv = comps.deep_view();
                    match validate_pieces(rest_pieces, depth as int) {
                        Ok(rr) => {
                            assert(old_dv.push(p) + rr =~~= old_dv + (seq![p] + rr));
                        },
                        Err(_) => {},
                    }
                }
                let ghost old_comps = comps;
                comps.push(piece);
                proof {
                    assert(comps.deep_view() =~~= old_comps.deep_view().push(p));
                }
            },
            PieceKind::Descend => {
                if depth == usize::MAX {
                    return Err(ExtractError::PathTooDeep);
                }
                depth = depth + 1;
                let piece = name.substring_char(start, end).to_owned();
                proof {
                    let old_dv = comps.deep_view();
                    match validate_pieces(rest_pieces, depth as int) {
                        Ok(rr) => {
                            assert(old_dv.push(p) + rr =~~= old_dv + (seq![p] + rr));
                        },
                        Err(_) => {},
                    }
                }
                let ghost old_comps = comps;
                comps.push(piece);
                proof {
                    assert(comps.deep_view() =~~= old_comps.deep_view().push(p));
                }
            },
        }
        if end < n {
            start = end + 1;
        } else {
            proof {
                match validate_pieces(rest_pieces, depth as int) {
                    Ok(rr) => {
                        assert(comps.deep_view() + rr =~~= comps.deep_view());
                    },
                    Err(_) => {},
                }
            }
            done = true;
        }
    }
    Ok(ValidatedRelativePath { components: comps })
}

// ---------------------------------------------------------------------------
// Joining a validated path under a destination root.
// ---------------------------------------------------------------------------

/// The text appended below a root when the components are joined: one `/`
/// before each component.
pub open spec fn joined_suffix(comps: Seq<Seq<char>>) -> Seq<char>
    decreases comps.len(),
{
    if comps.len() == 0 {
        Seq::<char>::empty()
    } else {
        seq!['/'] + comps.first() + joined_suffix(comps.drop_first())
    }
}

/// The full target path: the destination root followed by each component
/// behind a `/`.
pub open spec fn join_comps(root: Seq<char>, comps: Seq<Seq<char>>) -> Seq<char> {
    root + joined_suffix(comps)
}

/// Appending one component to the end of a joined path.
pub proof fn lemma_joined_suffix_push(comps: Seq<Seq<char>>, p: Seq<char>)
    ensures
        joined_suffix(comps.push(p)) == joined_suffix(comps) + seq!['/'] + p,
    decreases comps.len(),
{
    if comps.len() == 0 {
        assert(comps.push(p).first() == p);
        assert(comps.push(p).drop_first() =~~= Seq::<Seq<char>>::empty());
        assert(joined_suffix(Seq::<Seq<char>>::empty()) =~= Seq::<char>::empty());
        assert(joined_suffix(comps.push(p)) =~= joined_suffix(comps) + seq!['/'] + p);
    } else {
        assert(comps.push(p).first() == comps.first());
        assert(comps.push(p).drop_first() =~~= comps.drop_first().push(p));
        lemma_joined_suffix_push(comps.drop_first(), p);
        assert(joined_suffix(comps.push(p)) =~= joined_suffix(comps) + seq!['/'] + p);
    }
}

/// Join the destination root with the first `count` components of a
/// validated relative path, writing `/` between the parts.
pub fn join_under_root_take(root: &str, rel: &ValidatedRelativePath, count: usize) -> (r: String)
    requires
        count <= rel.components.len(),
    ensures
        r@ == join_comps(root@, rel@.take(count as int)),
{
    let mut out = root.to_owned();
    proof {
        assert(rel@.take(0) =~~= Seq::<Seq<char>>::empty());
        assert(out@ =~= join_comps(root@, rel@.take(0)));
    }
    let mut i: usize = 0;
    while i < count
        invariant
            0 <= i <= count <= rel.components.len(),
            rel.components.len() == rel@.len(),
            out@ == join_comps(root@, rel@.take(i as int)),
        decreases count - i,
    {
        out.append("/");
        out.append(rel.components[i].as_str());
        proof {
            reveal_strlit("/");
            assert(rel@.take(i as int).push(rel@[i as int]) =~~= rel@.take(i + 1));
            lemma_joined_suffix_push(rel@.take(i as int), rel@[i as int]);
            assert(rel.components[i as int]@ == rel@[i as int]);
            assert(out@ =~= join_comps(root@, rel@.take(i + 1)));
        }
        i += 1;
    }
    out
}

/// Join the destination root with a validated relative path, writing `/`
/// between the parts.
pub fn join_under_root(root: &str, rel: &ValidatedRelativePath) -> (r: String)
    ensures
        r@ == join_comps(root@, rel@),
{
    let n = rel.components.len();
    let out = join_under_root_take(root, rel, n);
    proof {
        assert(rel@.take(n as int) =~~= rel@);
    }
    out
}

} // verus!
