//! The representative weights that a node relies on while its ledger is young: a text whose
//! first line is the ledger height up to which they apply, followed by a line
//! `address:weight` per representative.
use crate::assoc::{
    assoc_map, has_key, keys_unique, lemma_assoc_index, lemma_assoc_push, lemma_assoc_update,
};
use crate::encoding::{
    account_of_address, amount_of_decimal, chars_of, decimal_value_of, decode_address,
    decode_decimal,
};
use crate::primitives::{Account, Amount};
use vstd::prelude::*;

verus! {

/// Where the first `c` in `s` is, or the length of `s` when there is none.
pub open spec fn position_of(s: Seq<char>, c: char) -> nat
    decreases s.len(),
{
    if s.len() == 0 {
        0
    } else if s[0] == c {
        0
    } else {
        1 + position_of(s.drop_first(), c)
    }
}

/// A line without its ending: the `\r` of a `\r\n` ending goes too.
pub open spec fn strip_cr(line: Seq<char>) -> Seq<char> {
    if line.len() > 0 && line.last() == '\r' {
        line.drop_last()
    } else {
        line
    }
}

/// The lines of a text, split as `str::lines` splits them: at each `\n`, dropping a `\r` just
/// before it; a last line ending adds no empty line.
pub open spec fn text_lines(s: Seq<char>) -> Seq<Seq<char>>
    decreases s.len(),
{
    if s.len() == 0 {
        Seq::empty()
    } else {
        let k = position_of(s, '\n');
        if k >= s.len() {
            seq![s]
        } else {
            seq![strip_cr(s.take(k as int))] + text_lines(s.skip(k + 1 as int))
        }
    }
}

/// The height on the first line: decimal digits, possibly after a `+`, that fit in 64 bits.
pub open spec fn height_of(line: Seq<char>) -> Option<u64> {
    let digits = if line.len() > 0 && line[0] == '+' {
        line.skip(1)
    } else {
        line
    };
    match decimal_value_of(digits) {
        Some(v) => if v <= u64::MAX {
            Some(v as u64)
        } else {
            None
        },
        None => None,
    }
}

/// The representative and weight of a line `address:weight` (whatever follows a second `:` is
/// ignored); none when the line has no `:` or either part does not read.
pub open spec fn weight_entry(line: Seq<char>) -> Option<(Account, Amount)> {
    let k = position_of(line, ':');
    if k >= line.len() {
        None
    } else {
        let rest = line.skip(k + 1 as int);
        let weight = rest.take(position_of(rest, ':') as int);
        match (account_of_address(line.take(k as int)), amount_of_decimal(weight)) {
            (Some(a), Some(w)) => Some((a, w)),
            _ => None,
        }
    }
}

/// The weights of the representative lines, a later line for a representative replacing an
/// earlier one; none when a line does not read.
pub open spec fn weights_of(lines: Seq<Seq<char>>) -> Option<Map<Account, Amount>>
    decreases lines.len(),
{
    if lines.len() == 0 {
        Some(Map::empty())
    } else {
        match weights_of(lines.drop_last()) {
            None => None,
            Some(m) => match weight_entry(lines.last()) {
                None => None,
                Some((a, w)) => Some(m.insert(a, w)),
            },
        }
    }
}

/// The height and the weights that a text gives: none of either for an empty text, none at all
/// when a line does not read.
pub open spec fn bootstrap_weights_of(text: Seq<char>) -> Option<(u64, Map<Account, Amount>)> {
    let lines = text_lines(text);
    if lines.len() == 0 {
        Some((0, Map::empty()))
    } else {
        match (height_of(lines[0]), weights_of(lines.skip(1))) {
            (Some(h), Some(m)) => Some((h, m)),
            _ => None,
        }
    }
}

/// `position_of` is where the first `c` stands.
proof fn lemma_position_of(s: Seq<char>, c: char, m: int)
    requires
        0 <= m <= s.len(),
        forall|i: int| 0 <= i < m ==> s[i] != c,
        m == s.len() || s[m] == c,
    ensures
        position_of(s, c) == m,
    decreases s.len(),
{
    if s.len() > 0 && m > 0 {
        lemma_position_of(s.drop_first(), c, m - 1);
    }
}

/// Where the first `c` is in `s` from `from` on, as an index into `s` (its length if none).
fn find_char(s: &[char], c: char, from: usize) -> (r: usize)
    requires
        from <= s@.len(),
    ensures
        from <= r <= s@.len(),
        r == from + position_of(s@.skip(from as int), c),
{
    let mut i = from;
    while i < s.len() && s[i] != c
        invariant
            from <= i <= s@.len(),
            forall|k: int| from <= k < i ==> s@[k] != c,
        decreases s@.len() - i,
    {
        i = i + 1;
    }
    proof {
        let t = s@.skip(from as int);
        assert forall|k: int| 0 <= k < i - from implies t[k] != c by {
            assert(t[k] == s@[from + k]);
        }
        lemma_position_of(t, c, i - from);
    }
    i
}

/// The characters `s[from..to]`.
fn copy_range(s: &[char], from: usize, to: usize) -> (r: Vec<char>)
    requires
        from <= to <= s@.len(),
    ensures
        r@ == s@.subrange(from as int, to as int),
{
    let mut out: Vec<char> = Vec::new();
    let mut i = from;
    while i < to
        invariant
            from <= i <= to <= s@.len(),
            out@ == s@.subrange(from as int, i as int),
        decreases to - i,
    {
        out.push(s[i]);
        assert(s@.subrange(from as int, i + 1) =~= s@.subrange(from as int, i as int).push(s@[i as int]));
        i = i + 1;
    }
    out
}

/// The height on the first line (see `height_of`).
fn parse_height(line: &[char]) -> (r: Option<u64>)
    ensures
        r == height_of(line@),
{
    let digits = if line.len() > 0 && line[0] == '+' {
        copy_range(line, 1, line.len())
    } else {
        copy_range(line, 0, line.len())
    };
    assert(line@.subrange(0, line@.len() as int) =~= line@);
    assert(line@.len() > 0 ==> line@.subrange(1, line@.len() as int) =~= line@.skip(1));
    match decode_decimal(digits.as_slice(), u64::MAX as u128) {
        Some(v) => Some(v as u64),
        None => None,
    }
}

/// The representative and weight of a line (see `weight_entry`).
fn parse_weight_line(line: &[char]) -> (r: Option<(Account, Amount)>)
    ensures
        r == weight_entry(line@),
{
    let k = find_char(line, ':', 0);
    assert(line@.skip(0) =~= line@);
    if k >= line.len() {
        return None;
    }
    let j = find_char(line, ':', k + 1);
    let address = copy_range(line, 0, k);
    let weight = copy_range(line, k + 1, j);
    proof {
        let rest = line@.skip(k + 1);
        assert(address@ =~= line@.take(k as int));
        assert(weight@ =~= rest.take(position_of(rest, ':') as int));
    }
    let account = decode_address(address.as_slice());
    let amount = decode_decimal(weight.as_slice(), u128::MAX);
    match (account, amount) {
        (Some(a), Some(w)) => Some((a, Amount::raw(w))),
        _ => None,
    }
}

/// Sets the weight of a representative in an association list.
fn put_weight(weights: &mut Vec<(Account, Amount)>, account: Account, weight: Amount)
    requires
        keys_unique(old(weights)@),
    ensures
        keys_unique(final(weights)@),
        assoc_map(final(weights)@) == assoc_map(old(weights)@).insert(account, weight),
{
    let mut i: usize = 0;
    while i < weights.len()
        invariant
            i <= weights@.len(),
            weights@ == old(weights)@,
            keys_unique(weights@),
            forall|k: int| 0 <= k < i ==> weights@[k].0 != account,
        decreases weights@.len() - i,
    {
        if weights[i].0 == account {
            proof {
                lemma_assoc_update(weights@, i as int, weight);
            }
            weights.set(i, (account, weight));
            return ;
        }
        i = i + 1;
    }
    proof {
        lemma_assoc_push(weights@, account, weight);
    }
    weights.push((account, weight));
}

/// The height and the weights that a text gives (see `bootstrap_weights_of`), the weights as
/// a list with one entry per representative; none when a line does not read.
pub fn deserialize_bootstrap_weights(buffer: &str) -> (r: Option<(u64, Vec<(Account, Amount)>)>)
    ensures
        match bootstrap_weights_of(buffer@) {
            None => r is None,
            Some((h, m)) => r matches Some((h2, v)) && h2 == h && keys_unique(v@) && assoc_map(v@)
                == m,
        },
{
    let chars = chars_of(buffer);
    let s = chars.as_slice();
    let ghost text = s@;
    let mut pos: usize = 0;
    let mut first_line = true;
    let mut max_blocks: u64 = 0;
    let mut weights: Vec<(Account, Amount)> = Vec::new();
    let ghost mut done: Seq<Seq<char>> = Seq::empty();
    assert(text.skip(0) =~= text);
    assert(assoc_map(weights@) =~= Map::<Account, Amount>::empty());
    while pos < s.len()
        invariant
            pos <= text.len(),
            text == s@,
            text == buffer@,
            text_lines(text) == done + text_lines(text.skip(pos as int)),
            first_line == (done.len() == 0),
            first_line ==> max_blocks == 0 && weights@.len() == 0,
            !first_line ==> height_of(done[0]) == Some(max_blocks),
            keys_unique(weights@),
            done.len() > 0 ==> weights_of(done.skip(1)) == Some(assoc_map(weights@)),
        decreases text.len() - pos,
    {
        let end = find_char(s, '\n', pos);
        let ghost t = text.skip(pos as int);
        let mut line = copy_range(s, pos, end);
        assert(line@ =~= t.take((end - pos) as int));
        if end < s.len() && line.len() > 0 && line[line.len() - 1] == '\r' {
            line.pop();
        }
        let next = if end < s.len() {
            end + 1
        } else {
            end
        };
        proof {
            if end < s.len() {
                assert(t.skip(end - pos + 1) =~= text.skip(next as int));
            } else {
                assert(t.take((end - pos) as int) =~= t);
                assert(text.skip(next as int) =~= Seq::<char>::empty());
            }
            lemma_next_line(t, (end - pos) as nat, line@, text.skip(next as int));
            assert(done + seq![line@] + text_lines(text.skip(next as int)) =~= done + (seq![line@]
                + text_lines(text.skip(next as int))));
        }
        if first_line {
            match parse_height(line.as_slice()) {
                Some(h) => {
                    max_blocks = h;
                },
                None => {
                    assert(text_lines(text)[0] == line@);
                    return None;
                },
            }
            first_line = false;
            proof {
                let d2 = done.push(line@);
                assert(d2.skip(1) =~= Seq::<Seq<char>>::empty());
                assert(assoc_map(weights@) =~= Map::<Account, Amount>::empty());
            }
        } else {
            let ghost d2 = done.push(line@);
            assert(d2.skip(1).drop_last() =~= done.skip(1));
            assert(d2.skip(1).last() == line@);
            match parse_weight_line(line.as_slice()) {
                Some((account, weight)) => {
                    put_weight(&mut weights, account, weight);
                },
                None => {
                    proof {
                        let lines = text_lines(text);
                        assert(weights_of(d2.skip(1)) is None);
                        assert(lines =~= d2 + text_lines(text.skip(next as int)));
                        assert(lines.skip(1).take(d2.skip(1).len() as int) =~= d2.skip(1));
                        lemma_weights_prefix_none(lines.skip(1), d2.skip(1));
                    }
                    return None;
                },
            }
        }
        proof {
            done = done.push(line@);
        }
        pos = next;
    }
    proof {
        assert(text.skip(pos as int) =~= Seq::<char>::empty());
        assert(text_lines(text) =~= done);
        if done.len() == 0 {
            assert(assoc_map(weights@) =~= Map::<Account, Amount>::empty());
        }
    }
    Some((max_blocks, weights))
}

/// The lines of a text are its first line and the lines of what follows the first line ending.
proof fn lemma_next_line(t: Seq<char>, k: nat, line: Seq<char>, rest: Seq<char>)
    requires
        t.len() > 0,
        k == position_of(t, '\n'),
        k <= t.len(),
        k < t.len() ==> line == strip_cr(t.take(k as int)) && rest == t.skip(k + 1 as int),
        k >= t.len() ==> line == t && rest.len() == 0,
    ensures
        text_lines(t) == seq![line] + text_lines(rest),
{
    if k >= t.len() {
        assert(rest =~= Seq::<char>::empty());
        assert(seq![line] + Seq::<Seq<char>>::empty() =~= seq![line]);
    }
}

/// When some lines already do not read, no longer list reads.
proof fn lemma_weights_prefix_none(all: Seq<Seq<char>>, prefix: Seq<Seq<char>>)
    requires
        prefix.len() <= all.len(),
        all.take(prefix.len() as int) == prefix,
        weights_of(prefix) is None,
    ensures
        weights_of(all) is None,
    decreases all.len(),
{
    if all.len() > prefix.len() {
        assert(all.drop_last().take(prefix.len() as int) =~= all.take(prefix.len() as int));
        lemma_weights_prefix_none(all.drop_last(), prefix);
    } else {
        assert(all.take(prefix.len() as int) =~= all);
    }
}

} // verus!
