use vstd::prelude::*;
use crate::piece::{PieceColor, Tetromino, standard_piece, lemma_standard_piece_shape};
use std::time::{Duration, SystemTime, SystemTimeError, UNIX_EPOCH};

verus! {

#[verifier::external_type_specification]
#[verifier::external_body]
pub struct ExSystemTime(SystemTime);

#[verifier::external_type_specification]
#[verifier::external_body]
pub struct ExSystemTimeError(SystemTimeError);

/// Reads the system clock with `SystemTime::now`.  Nothing is promised of
/// the time read.
#[verifier::external_body]
fn system_time_now() -> SystemTime {
    SystemTime::now()
}

/// `SystemTime::duration_since` with `UNIX_EPOCH`: the time since the
/// epoch, or an error when the clock stands before it.  Nothing is
/// promised of the result.
#[verifier::external_body]
fn duration_since_unix_epoch(t: &SystemTime) -> Result<Duration, SystemTimeError> {
    t.duration_since(UNIX_EPOCH)
}

/// `Duration::subsec_nanos`: the part of the duration below a whole
/// second, in nanoseconds, which std documents as less than one billion.
#[verifier::external_body]
fn duration_subsec_nanos(d: &Duration) -> (n: u32)
    ensures
        n < 1_000_000_000,
{
    d.subsec_nanos()
}

/// The number below `end` that the clock reading `nanos` selects.
pub fn random_from_nanos(nanos: u32, end: u32) -> (r: u32)
    requires
        end > 0,
    ensures
        r == nanos % end,
{
    nanos % end
}

/// The nanoseconds part (below one billion) of the system clock's time
/// since the Unix epoch, or the error std reports when the clock stands
/// before the epoch.  Which of the two, and which number, depends on the
/// clock.
pub fn clock_nanos() -> (r: Result<u32, SystemTimeError>)
    ensures
        r matches Ok(n) ==> n < 1_000_000_000,
{
    let now = system_time_now();
    match duration_since_unix_epoch(&now) {
        Ok(d) => Ok(duration_subsec_nanos(&d)),
        Err(e) => Err(e),
    }
}

/// A number below `end`: the remainder, by `end`, of the nanoseconds part
/// (below one billion) of the system clock's time since the Unix epoch;
/// the clock's error when it stands before the epoch.  Which of the two,
/// and which number, depends on the clock.
pub fn random_u32(end: u32) -> (r: Result<u32, SystemTimeError>)
    requires
        end > 0,
    ensures
        r matches Ok(v) ==> v < end && exists|nanos: u32| nanos < 1_000_000_000 && v == #[trigger] (nanos % end),
{
    match clock_nanos() {
        Ok(nanos) => {
            let v = random_from_nanos(nanos, end);
            assert(nanos < 1_000_000_000 && v == nanos % end);
            Ok(v)
        },
        Err(e) => Err(e),
    }
}

/// The view of a piece: its grid and its colour.
pub type PieceView = (Seq<Seq<bool>>, PieceColor);

/// The views of a row of pieces.
pub open spec fn pieces(v: &Vec<Tetromino>) -> Seq<PieceView> {
    v@.map_values(|t: Tetromino| t@)
}

/// The standard pieces of the given colours.
pub open spec fn standard_pieces(cs: Seq<PieceColor>) -> Seq<PieceView> {
    cs.map_values(|c: PieceColor| standard_piece(c))
}

/// The colours of the seven pieces a new bag is drawn from, in the order
/// they are lined up: I, J, T, L, O, S, Z.
pub open spec fn bag_colors() -> Seq<PieceColor> {
    seq![
        PieceColor::Cyan,
        PieceColor::Blue,
        PieceColor::Magenta,
        PieceColor::DarkYellow,
        PieceColor::Yellow,
        PieceColor::Green,
        PieceColor::Red,
    ]
}

/// Drawing from `list`: while more than one item is left, the item at the
/// next choice is taken out and added to the draw.
pub open spec fn drawn(list: Seq<PieceColor>, choices: Seq<u32>) -> Seq<PieceColor>
    decreases list.len(),
{
    if list.len() <= 1 || choices.len() == 0 || choices[0] >= list.len() {
        seq![]
    } else {
        seq![list[choices[0] as int]] + drawn(list.remove(choices[0] as int), choices.drop_first())
    }
}

/// The choices fit a draw from `n` items: one per draw, each below the
/// number of items left.
pub open spec fn choices_fit(choices: Seq<u32>, n: int) -> bool {
    &&& choices.len() == n - 1
    &&& forall|k: int| 0 <= k < choices.len() ==> #[trigger] choices[k] < n - k
}

/// A bag: six standard pieces of six different colours.
pub open spec fn valid_bag(b: Seq<PieceView>) -> bool {
    &&& b.len() == 6
    &&& forall|k: int| 0 <= k < b.len() ==> #[trigger] b[k] == standard_piece(b[k].1)
    &&& forall|k: int, l: int| 0 <= k < l < b.len() ==> #[trigger] b[k].1 != #[trigger] b[l].1
}

/// A draw from a list without repeated items takes one item fewer than the
/// list holds, repeats none, and takes only items of the list.
pub proof fn lemma_drawn(list: Seq<PieceColor>, choices: Seq<u32>)
    requires
        list.len() >= 1,
        list.no_duplicates(),
        choices_fit(choices, list.len() as int),
    ensures
        drawn(list, choices).len() == list.len() - 1,
        drawn(list, choices).no_duplicates(),
        forall|k: int| 0 <= k < drawn(list, choices).len() ==> list.contains(#[trigger] drawn(list, choices)[k]),
    decreases list.len(),
{
    if list.len() > 1 {
        let c = choices[0] as int;
        let rest = list.remove(c);
        let tail = choices.drop_first();
        assert(rest.no_duplicates()) by {
            assert forall|a: int, b: int| 0 <= a < b < rest.len() implies rest[a] != rest[b] by {
                let a2 = if a < c { a } else { a + 1 };
                let b2 = if b < c { b } else { b + 1 };
                assert(rest[a] == list[a2]);
                assert(rest[b] == list[b2]);
            }
        }
        assert(choices_fit(tail, rest.len() as int)) by {
            assert forall|k: int| 0 <= k < tail.len() implies #[trigger] tail[k] < rest.len() - k by {
                assert(tail[k] == choices[k + 1]);
            }
        }
        lemma_drawn(rest, tail);
        let d = drawn(list, choices);
        let dr = drawn(rest, tail);
        assert(d == seq![list[c]] + dr);
        assert forall|k: int| 0 <= k < dr.len() implies #[trigger] list.contains(dr[k]) && dr[k] != list[c] by {
            assert(rest.contains(dr[k]));
            let w = choose|w: int| 0 <= w < rest.len() && rest[w] == dr[k];
            let w2 = if w < c { w } else { w + 1 };
            assert(list[w2] == dr[k]);
        }
        assert forall|k: int| 0 <= k < d.len() implies list.contains(#[trigger] d[k]) by {
            if k > 0 {
                assert(d[k] == dr[k - 1]);
                assert(list.contains(dr[k - 1]));
            } else {
                assert(list[c] == d[0]);
            }
        }
        assert forall|a: int, b: int| 0 <= a < b < d.len() implies d[a] != d[b] by {
            if a > 0 {
                assert(d[a] == dr[a - 1]);
                assert(d[b] == dr[b - 1]);
            } else {
                assert(d[b] == dr[b - 1]);
                assert(list.contains(dr[b - 1]) && dr[b - 1] != list[c]);
            }
        }
    }
}

/// The seven pieces lined up for a new bag, in the order I, J, T, L, O, S, Z.
fn seven_pieces() -> (v: Vec<Tetromino>)
    ensures
        pieces(&v) == standard_pieces(bag_colors()),
{
    let v = vec![
        Tetromino::new_i(),
        Tetromino::new_j(),
        Tetromino::new_t(),
        Tetromino::new_l(),
        Tetromino::new_o(),
        Tetromino::new_s(),
        Tetromino::new_z(),
    ];
    assert(pieces(&v) =~= standard_pieces(bag_colors()));
    v
}

/// The bag drawn from the seven pieces with the given choices: while more
/// than one piece is left, the piece at the next choice is moved into the
/// bag.  Six pieces are drawn; the last one left stays out.
pub fn bag_from_choices(choices: &Vec<u32>) -> (bag: Vec<Tetromino>)
    requires
        choices_fit(choices@, 7),
    ensures
        pieces(&bag) == standard_pieces(drawn(bag_colors(), choices@)),
{
    let mut list_of_tetrominos = seven_pieces();
    let ghost mut left: Seq<PieceColor> = bag_colors();
    let mut new_vec: Vec<Tetromino> = Vec::with_capacity(list_of_tetrominos.len());
    let mut k: usize = 0;
    let ghost mut taken: Seq<PieceColor> = seq![];
    assert(list_of_tetrominos.len() == pieces(&list_of_tetrominos).len());
    assert(choices@.skip(0) =~= choices@);
    assert(seq![] + drawn(left, choices@) =~= drawn(left, choices@));
    assert(pieces(&new_vec) =~= standard_pieces(taken));
    while list_of_tetrominos.len() > 1
        invariant
            choices_fit(choices@, 7),
            left.len() == list_of_tetrominos.len(),
            left.len() + k == 7,
            pieces(&list_of_tetrominos) == standard_pieces(left),
            pieces(&new_vec) == standard_pieces(taken),
            drawn(bag_colors(), choices@) == taken + drawn(left, choices@.skip(k as int)),
        decreases list_of_tetrominos.len(),
    {
        let random = choices[k];
        let r = random as usize;
        assert(choices@.skip(k as int)[0] == random);
        assert(pieces(&list_of_tetrominos)[r as int] == list_of_tetrominos@[r as int]@);
        let piece = list_of_tetrominos[r].duplicate();
        let ghost old_list = pieces(&list_of_tetrominos);
        assert(piece@ == standard_piece(left[r as int]));
        let ghost old_new = pieces(&new_vec);
        assert(old_new.len() == taken.len());
        assert(old_new.len() == new_vec.len());
        new_vec.push(piece);
        list_of_tetrominos.remove(r);
        assert forall|i: int| 0 <= i < list_of_tetrominos.len() implies #[trigger] pieces(&list_of_tetrominos)[i]
            == old_list[if i < r { i } else { i + 1 }] by {
        }
        assert forall|i: int| 0 <= i < new_vec.len() implies #[trigger] pieces(&new_vec)[i]
            == old_new.push(piece@)[i] by {
        }
        proof {
            let tail = choices@.skip(k as int);
            assert(tail.drop_first() =~= choices@.skip(k + 1));
            assert(drawn(left, tail) == seq![left[r as int]] + drawn(left.remove(r as int), tail.drop_first()));
            assert(taken + drawn(left, tail) =~= taken.push(left[r as int]) + drawn(left.remove(r as int), tail.drop_first()));
            let t0 = taken;
            let l0 = left;
            taken = taken.push(left[r as int]);
            left = left.remove(r as int);
            assert forall|i: int| 0 <= i < taken.len() implies #[trigger] standard_pieces(taken)[i]
                == old_new.push(piece@)[i] by {
                if i < t0.len() {
                    assert(taken[i] == t0[i]);
                    assert(old_new[i] == standard_pieces(t0)[i]);
                } else {
                    assert(taken[i] == l0[r as int]);
                }
            }
        }
        assert(pieces(&list_of_tetrominos) =~= standard_pieces(left));
        assert(new_vec.len() == old_new.len() + 1);
        assert(pieces(&new_vec).len() == standard_pieces(taken).len());
        assert forall|i: int| 0 <= i < new_vec.len() implies #[trigger] pieces(&new_vec)[i]
            == standard_pieces(taken)[i] by {
            assert(pieces(&new_vec)[i] == old_new.push(piece@)[i]);
            assert(standard_pieces(taken)[i] == old_new.push(piece@)[i]);
        }
        assert(pieces(&new_vec) =~= standard_pieces(taken));
        k = k + 1;
    }
    assert(drawn(left, choices@.skip(k as int)) =~= seq![]);
    assert(taken + seq![] =~= taken);
    new_vec
}

/// The seven colours of a new bag's line-up are all different.
proof fn lemma_bag_colors_distinct()
    ensures
        bag_colors().no_duplicates(),
        bag_colors().len() == 7,
{
    let b = bag_colors();
    assert forall|i: int, j: int| 0 <= i < b.len() && 0 <= j < b.len() && i != j implies b[i] != b[j] by {
        assert(b[0] == PieceColor::Cyan);
        assert(b[1] == PieceColor::Blue);
        assert(b[2] == PieceColor::Magenta);
        assert(b[3] == PieceColor::DarkYellow);
        assert(b[4] == PieceColor::Yellow);
        assert(b[5] == PieceColor::Green);
        assert(b[6] == PieceColor::Red);
    }
}

/// The pieces drawn with choices that fit make a bag.
pub proof fn lemma_drawn_bag_is_valid(choices: Seq<u32>)
    requires
        choices_fit(choices, 7),
    ensures
        valid_bag(standard_pieces(drawn(bag_colors(), choices))),
{
    lemma_bag_colors_distinct();
    lemma_drawn(bag_colors(), choices);
    let d = drawn(bag_colors(), choices);
    let b = standard_pieces(d);
    assert forall|k: int| 0 <= k < b.len() implies #[trigger] b[k] == standard_piece(b[k].1) by {
        lemma_standard_piece_shape(d[k]);
    }
    assert forall|k: int, l: int| 0 <= k < l < b.len() implies #[trigger] b[k].1 != #[trigger] b[l].1 by {
        lemma_standard_piece_shape(d[k]);
        lemma_standard_piece_shape(d[l]);
    }
}

/// How many pieces the `k`-th pick of a new bag chooses among: the first
/// pick among the first six of the line-up, every later pick among all the
/// pieces left.
pub open spec fn pick_bound(k: int) -> int {
    if k == 0 {
        6
    } else {
        7 - k
    }
}

/// The choices that six clock readings make: each reading modulo the
/// bound of its pick.
pub open spec fn choices_of(readings: Seq<u32>) -> Seq<u32> {
    Seq::new(readings.len(), |k: int| (readings[k] % (pick_bound(k) as u32)) as u32)
}

/// The choices that clock readings make fit a draw from the seven pieces.
proof fn lemma_choices_of_fit(readings: Seq<u32>)
    requires
        readings.len() == 6,
    ensures
        choices_fit(choices_of(readings), 7),
        choices_of(readings)[0] < 6,
{
}

/// The bag that six clock readings draw: the `k`-th pick takes, among the
/// pieces left, the one at the reading modulo `pick_bound(k)`.
pub fn bag_from_readings(readings: &Vec<u32>) -> (bag: Vec<Tetromino>)
    requires
        readings.len() == 6,
    ensures
        pieces(&bag) == standard_pieces(drawn(bag_colors(), choices_of(readings@))),
{
    let mut choices: Vec<u32> = Vec::new();
    for k in 0..6
        invariant
            readings.len() == 6,
            choices.len() == k,
            forall|q: int| 0 <= q < k ==> #[trigger] choices@[q] == choices_of(readings@)[q],
    {
        let bound: u32 = if k == 0 {
            6
        } else {
            7 - k as u32
        };
        choices.push(random_from_nanos(readings[k], bound));
    }
    assert(choices@ =~= choices_of(readings@));
    proof {
        lemma_choices_of_fit(readings@);
    }
    bag_from_choices(&choices)
}

/// Every colour, Z's included, is in the bag that some clock readings
/// draw.
pub proof fn lemma_every_colour_can_be_drawn(c: PieceColor)
    ensures
        exists|readings: Seq<u32>|
            #![trigger drawn(bag_colors(), choices_of(readings))]
            readings.len() == 6 && (forall|k: int| 0 <= k < 6 ==> readings[k] < 1_000_000_000)
                && drawn(bag_colors(), choices_of(readings)).contains(c),
{
    let l = bag_colors();
    lemma_bag_colors_distinct();
    assert(l.contains(c)) by {
        match c {
            PieceColor::Cyan => assert(l[0] == c),
            PieceColor::Blue => assert(l[1] == c),
            PieceColor::Magenta => assert(l[2] == c),
            PieceColor::DarkYellow => assert(l[3] == c),
            PieceColor::Yellow => assert(l[4] == c),
            PieceColor::Green => assert(l[5] == c),
            PieceColor::Red => assert(l[6] == c),
        }
    }
    if c != PieceColor::Red {
        let i = choose|i: int| 0 <= i < l.len() && l[i] == c;
        assert(i != 6);
        let readings = seq![i as u32, 0u32, 0u32, 0u32, 0u32, 0u32];
        let ch = choices_of(readings);
        assert(readings[0] == i as u32);
        assert(pick_bound(0) == 6);
        let r0 = readings[0];
        assert(r0 % 6u32 == r0) by (nonlinear_arith)
            requires
                r0 < 6u32,
        ;
        assert(ch[0] == i);
        assert(ch.len() == 6);
        let d = drawn(l, ch);
        assert(d == seq![l[ch[0] as int]] + drawn(l.remove(ch[0] as int), ch.drop_first()));
        assert(d[0] == c);
        assert(readings[0] < 1_000_000_000);
        assert(forall|k: int| 0 <= k < 6 ==> readings[k] < 1_000_000_000);
    } else {
        let readings = seq![0u32, 5u32, 0u32, 0u32, 0u32, 0u32];
        let ch = choices_of(readings);
        assert(readings[0] == 0u32 && readings[1] == 5u32);
        assert(pick_bound(0) == 6 && pick_bound(1) == 6);
        assert(ch[0] == 0);
        assert(ch[1] == 5);
        let rest = l.remove(0);
        let tail = ch.drop_first();
        assert(tail[0] == 5);
        let d = drawn(l, ch);
        assert(d == seq![l[0]] + drawn(rest, tail));
        let d2 = drawn(rest, tail);
        assert(d2 == seq![rest[5]] + drawn(rest.remove(5), tail.drop_first()));
        assert(rest[5] == l[6]);
        assert(d[1] == d2[0]);
        assert(d[1] == c);
        assert(forall|k: int| 0 <= k < 6 ==> readings[k] < 1_000_000_000);
    }
}

/// A new bag: six of the seven pieces, drawn by six readings of the clock
/// as `bag_from_readings` draws them, or the clock's error when a reading
/// fails.  The first pick is made among the first six of the line-up I, J,
/// T, L, O, S, Z, so a bag never starts with Z.
pub fn make_bag() -> (bag: Result<Vec<Tetromino>, SystemTimeError>)
    ensures
        bag matches Ok(b) ==> valid_bag(pieces(&b)) && pieces(&b)[0].1 != PieceColor::Red,
        bag matches Ok(b) ==> exists|readings: Seq<u32>|
            #![trigger drawn(bag_colors(), choices_of(readings))]
            readings.len() == 6 && (forall|k: int| 0 <= k < 6 ==> readings[k] < 1_000_000_000)
                && pieces(&b) == standard_pieces(drawn(bag_colors(), choices_of(readings))),
{
    let mut readings: Vec<u32> = Vec::new();
    for k in 0..6
        invariant
            readings.len() == k,
            forall|q: int| 0 <= q < k ==> #[trigger] readings@[q] < 1_000_000_000,
    {
        match clock_nanos() {
            Ok(n) => readings.push(n),
            Err(e) => return Err(e),
        }
    }
    let bag = bag_from_readings(&readings);
    proof {
        let choices = choices_of(readings@);
        lemma_choices_of_fit(readings@);
        lemma_drawn_bag_is_valid(choices);
        lemma_bag_colors_distinct();
        let d = drawn(bag_colors(), choices);
        assert(d[0] == bag_colors()[choices[0] as int]);
        assert(pieces(&bag)[0] == standard_piece(d[0]));
        lemma_standard_piece_shape(d[0]);
    }
    Ok(bag)
}

/// A copy of a row of pieces.
pub fn copy_pieces(v: &Vec<Tetromino>) -> (r: Vec<Tetromino>)
    ensures
        pieces(&r) == pieces(v),
{
    let mut r: Vec<Tetromino> = Vec::new();
    for k in 0..v.len()
        invariant
            r.len() == k,
            forall|i: int| 0 <= i < k ==> #[trigger] r@[i]@ == v@[i]@,
    {
        r.push(v[k].duplicate());
    }
    assert(pieces(&r) =~= pieces(v));
    r
}

/// `bag` with the pieces of `new_bag` put in front of it one at a time,
/// each in front of the ones before: `new_bag` reversed, then `bag`.
pub fn prepend_bag(bag: &Vec<Tetromino>, new_bag: Vec<Tetromino>) -> (res: Vec<Tetromino>)
    ensures
        pieces(&res) == pieces(&new_bag).reverse() + pieces(bag),
{
    let mut bag_tmp = copy_pieces(bag);
    let mut rest = new_bag;
    let ghost nb = pieces(&rest);
    let ghost mut k: int = 0;
    assert(pieces(&rest) =~= nb.skip(0));
    assert(pieces(&bag_tmp) =~= nb.take(0).reverse() + pieces(bag));
    while rest.len() > 0
        invariant
            0 <= k <= nb.len(),
            pieces(&rest) == nb.skip(k),
            pieces(&bag_tmp) == nb.take(k).reverse() + pieces(bag),
        decreases rest.len(),
    {
        assert(pieces(&rest).len() == rest.len());
        let ghost pr = pieces(&rest);
        assert(pr[0] == nb[k]);
        assert(pr[0] == rest@[0]@);
        let tetromino = rest.remove(0);
        assert(tetromino@ == nb[k]);
        assert forall|i: int| 0 <= i < rest.len() implies #[trigger] pieces(&rest)[i] == nb[k + 1 + i] by {
            assert(pr[i + 1] == nb[k + 1 + i]);
        }
        let ghost before = pieces(&bag_tmp);
        bag_tmp.insert(0, tetromino);
        proof {
            assert(pieces(&rest) =~= nb.skip(k + 1));
            assert(nb.take(k + 1).reverse() =~= seq![nb[k]] + nb.take(k).reverse());
            assert(pieces(&bag_tmp) =~= seq![tetromino@] + before);
            k = k + 1;
        }
        assert(pieces(&bag_tmp) =~= nb.take(k).reverse() + pieces(bag));
    }
    assert(pieces(&rest).len() == rest.len());
    assert(nb.take(k) =~= nb);
    bag_tmp
}

/// The bag with a new bag, read from the clock, put in front of it in
/// reverse order; the clock's error when reading it fails.
pub fn append_to_bag(bag: &Vec<Tetromino>) -> (res: Result<Vec<Tetromino>, SystemTimeError>)
    ensures
        res matches Ok(r) ==> {
            &&& pieces(&r).len() == pieces(bag).len() + 6
            &&& pieces(&r).skip(6) == pieces(bag)
            &&& valid_bag(pieces(&r).take(6).reverse())
            &&& pieces(&r)[5].1 != PieceColor::Red
        },
{
    let new_bag = match make_bag() {
        Ok(b) => b,
        Err(e) => return Err(e),
    };
    let ghost nb = pieces(&new_bag);
    let res = prepend_bag(bag, new_bag);
    assert(pieces(&res).skip(6) =~= pieces(bag));
    assert(pieces(&res).take(6) =~= nb.reverse());
    assert(pieces(&res).take(6).reverse() =~= nb);
    Ok(res)
}

/// What taking the next piece does to the bag: it comes off the back.
/// When at most five pieces were left, a new bag, reversed, is put in
/// front of the rest; an empty bag is first replaced by a new bag.  A new
/// bag never starts with Z.
pub open spec fn next_from_bag(old: Seq<PieceView>, popped: PieceView, new: Seq<PieceView>) -> bool {
    if old.len() == 0 {
        &&& valid_bag(new.push(popped))
        &&& new.push(popped)[0].1 != PieceColor::Red
    } else if old.len() <= 5 {
        &&& popped == old.last()
        &&& new.len() == old.len() + 5
        &&& new.skip(6) == old.drop_last()
        &&& valid_bag(new.take(6).reverse())
        &&& new[5].1 != PieceColor::Red
    } else {
        &&& popped == old.last()
        &&& new == old.drop_last()
    }
}

/// Takes the next piece off the back of the bag, with `fresh` as the new
/// bag that an empty or nearly empty bag is given.
pub fn take_next_piece_with(bag: &mut Vec<Tetromino>, fresh: Vec<Tetromino>) -> (piece: Tetromino)
    requires
        old(bag).len() <= 5 ==> valid_bag(pieces(&fresh)),
    ensures
        old(bag).len() == 0 ==> piece@ == pieces(&fresh).last() && pieces(final(bag)) == pieces(&fresh).drop_last(),
        1 <= old(bag).len() <= 5 ==> piece@ == pieces(old(bag)).last() && pieces(final(bag)) == pieces(&fresh).reverse()
            + pieces(old(bag)).drop_last(),
        old(bag).len() > 5 ==> piece@ == pieces(old(bag)).last() && pieces(final(bag)) == pieces(old(bag)).drop_last(),
{
    let ghost fr = pieces(&fresh);
    let ghost ob = pieces(bag);
    if bag.len() == 0 {
        *bag = fresh;
        assert(pieces(bag).len() == bag.len());
        let mino = bag.remove(bag.len() - 1);
        assert(pieces(bag) =~= fr.drop_last());
        return mino;
    }
    assert(ob.len() == bag.len());
    let mino = bag.remove(bag.len() - 1);
    assert(pieces(bag) =~= ob.drop_last());
    if bag.len() < 5 {
        *bag = prepend_bag(bag, fresh);
    }
    mino
}

/// Takes the next piece off the back of the bag; an empty or nearly empty
/// bag is refilled with a new bag read from the clock.  When that reading
/// fails, nothing is taken, the bag stays as it was, and the result is
/// the clock's error; a bag of more than five pieces needs no reading and always
/// gives its next piece.
pub fn take_next_piece(bag: &mut Vec<Tetromino>) -> (piece: Result<Tetromino, SystemTimeError>)
    ensures
        piece matches Ok(p) ==> next_from_bag(pieces(old(bag)), p@, pieces(final(bag))),
        piece is Err ==> pieces(final(bag)) == pieces(old(bag)),
        pieces(old(bag)).len() > 5 ==> piece is Ok,
{
    let ghost ob = pieces(bag);
    assert(ob.len() == bag.len());
    let fresh = if bag.len() <= 5 {
        match make_bag() {
            Ok(b) => b,
            Err(e) => return Err(e),
        }
    } else {
        Vec::new()
    };
    let ghost fr = pieces(&fresh);
    let piece = take_next_piece_with(bag, fresh);
    proof {
        let nb = pieces(bag);
        if ob.len() == 0 {
            assert(nb.push(piece@) =~= fr);
        } else if ob.len() <= 5 {
            assert(nb.skip(6) =~= ob.drop_last());
            assert(nb.take(6).reverse() =~= fr);
            assert(nb[5] == fr[0]);
        }
    }
    Ok(piece)
}

} // verus!
