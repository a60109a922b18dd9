//! Emoji usage tracking: parsing custom emoji out of message text,
//! counting uses, computing the new uses an edit introduces, and the
//! decisions of the emoji-clone command.

use vstd::prelude::*;
use crate::text::{dec_value, digit_run_end, is_dec_digit, parse_u64_at};

verus! {

/// How emoji statistics are sorted.
#[derive(Debug, PartialEq, Eq, Structural, Clone, Copy)]
pub enum StatsSort {
    CountDesc,
    CountAsc,
    DateDesc,
    DateAsc,
}

impl StatsSort {
    /// The human-readable label of this sort order.
    pub fn name(&self) -> (r: &'static str)
        ensures
            *self is CountDesc ==> r@ == "Most Used"@,
            *self is CountAsc ==> r@ == "Least Used"@,
            *self is DateDesc ==> r@ == "Most Recent"@,
            *self is DateAsc ==> r@ == "Least Recent"@,
    {
        match self {
            StatsSort::CountDesc => "Most Used",
            StatsSort::CountAsc => "Least Used",
            StatsSort::DateDesc => "Most Recent",
            StatsSort::DateAsc => "Least Recent",
        }
    }

    /// The identifier of this sort order.
    pub fn id(&self) -> (r: &'static str)
        ensures
            *self is CountDesc ==> r@ == "count_desc"@,
            *self is CountAsc ==> r@ == "count_asc"@,
            *self is DateDesc ==> r@ == "date_desc"@,
            *self is DateAsc ==> r@ == "date_asc"@,
    {
        match self {
            StatsSort::CountDesc => "count_desc",
            StatsSort::CountAsc => "count_asc",
            StatsSort::DateDesc => "date_desc",
            StatsSort::DateAsc => "date_asc",
        }
    }

    /// Parses a sort identifier; exactly the four identifiers are
    /// accepted.
    pub fn try_from_string(string: &str) -> (r: Result<Self, crate::dispatch::DispatchError>)
        ensures
            string@ == "count_desc"@ ==> r matches Ok(StatsSort::CountDesc),
            string@ == "count_asc"@ ==> r matches Ok(StatsSort::CountAsc),
            string@ == "date_desc"@ ==> r matches Ok(StatsSort::DateDesc),
            string@ == "date_asc"@ ==> r matches Ok(StatsSort::DateAsc),
            string@ != "count_desc"@ && string@ != "count_asc"@ && string@ != "date_desc"@
                && string@ != "date_asc"@ ==> r is Err,
    {
        proof {
            reveal_strlit("count_desc");
            reveal_strlit("count_asc");
            reveal_strlit("date_desc");
            reveal_strlit("date_asc");
            assert("count_desc"@.len() == 10 && "count_asc"@.len() == 9 && "date_desc"@.len()
                == 9 && "date_asc"@.len() == 8);
            assert("count_asc"@[0] == 'c' && "date_desc"@[0] == 'd');
        }
        if crate::text::str_eq(string, "count_desc") {
            Ok(StatsSort::CountDesc)
        } else if crate::text::str_eq(string, "count_asc") {
            Ok(StatsSort::CountAsc)
        } else if crate::text::str_eq(string, "date_desc") {
            Ok(StatsSort::DateDesc)
        } else if crate::text::str_eq(string, "date_asc") {
            Ok(StatsSort::DateAsc)
        } else {
            Err(crate::dispatch::DispatchError::Parse)
        }
    }
}

/// A custom emoji as tracked in the database: identified by its id alone.
#[derive(Debug)]
pub struct Emoji {
    pub id: u64,
    pub guild_id: u64,
    pub name: String,
    pub animated: bool,
}

/// The mathematical value of an emoji record.
#[verifier::ext_equal]
pub ghost struct EmojiV {
    pub id: u64,
    pub guild_id: u64,
    pub name: Seq<char>,
    pub animated: bool,
}

impl View for Emoji {
    type V = EmojiV;

    open spec fn view(&self) -> EmojiV {
        EmojiV {
            id: self.id,
            guild_id: self.guild_id,
            name: self.name@,
            animated: self.animated,
        }
    }
}

impl Emoji {
    pub fn new(id: u64, guild_id: u64, name: String, animated: bool) -> (e: Self)
        ensures
            e@ == (EmojiV { id, guild_id, name: name@, animated }),
    {
        Emoji { id, guild_id, name, animated }
    }
}

impl PartialEq for Emoji {
    /// Emoji records compare by id alone, as the use counter groups by id.
    fn eq(&self, other: &Self) -> (r: bool) {
        self.id == other.id
    }
}

impl vstd::std_specs::cmp::PartialEqSpecImpl for Emoji {
    open spec fn obeys_eq_spec() -> bool {
        true
    }

    open spec fn eq_spec(&self, other: &Self) -> bool {
        self.id == other.id
    }
}

impl Eq for Emoji {}

/// The raw emoji captures the emoji pattern finds in a message: for each
/// occurrence of `<a?:name:id>`, the digits of the id, the name, and the
/// text of the animation flag group, in match order.
pub uninterp spec fn emoji_captures(content: Seq<char>) -> Seq<(Seq<char>, Seq<char>, Seq<char>)>;

/// Relies on regex::Regex::captures_iter with the custom-emoji pattern
/// (an optional `a` flag, a word-character name, a decimal id): the
/// matches depend on the text alone.
#[verifier::external_body]
fn scan_emoji_captures(content: &str) -> (r: Vec<(String, String, String)>)
    ensures
        r@.map_values(|c: (String, String, String)| (c.0@, c.1@, c.2@))
            == emoji_captures(content@),
{
    let re = match regex::Regex::new(r"<(a?):([[:word:]]+):([[:digit:]]+)>") {
        Ok(re) => re,
        Err(_) => return Vec::new(),
    };
    re.captures_iter(content)
        .map(|caps| {
            let (_, [animated, name, id]) = caps.extract();
            (id.to_string(), name.to_string(), animated.to_string())
        })
        .collect()
}

/// The emoji records a capture list yields for a guild: each capture whose
/// id digits fit in a nonzero `u64` becomes a record.
pub open spec fn spec_emojis_of(caps: Seq<(Seq<char>, Seq<char>, Seq<char>)>, guild_id: u64) -> Seq<
    EmojiV,
>
    decreases caps.len(),
{
    if caps.len() == 0 {
        Seq::empty()
    } else {
        let rest = spec_emojis_of(caps.drop_last(), guild_id);
        let c = caps.last();
        if c.0.len() > 0 && is_dec_digit(c.0[0]) && digit_run_end(c.0, 0) == c.0.len()
            && 0 < dec_value(c.0) <= u64::MAX {
            rest.push(
                EmojiV {
                    id: dec_value(c.0) as u64,
                    guild_id,
                    name: c.1,
                    animated: c.2 == "a"@,
                },
            )
        } else {
            rest
        }
    }
}

/// Parses the custom emoji out of a message: every `<a?:name:id>`
/// occurrence whose id is a nonzero 64-bit number, in match order.
pub fn parse_emojis_from_string(guild_id: u64, content: &str) -> (r: Vec<Emoji>)
    ensures
        r@.map_values(|e: Emoji| e@) =~= spec_emojis_of(emoji_captures(content@), guild_id),
{
    let caps = scan_emoji_captures(content);
    let n = caps.len();
    let mut out: Vec<Emoji> = Vec::new();
    let mut i: usize = 0;
    let ghost cv = caps@.map_values(|c: (String, String, String)| (c.0@, c.1@, c.2@));
    proof {
        assert(out@.map_values(|e: Emoji| e@) =~= spec_emojis_of(cv.take(0), guild_id));
    }
    loop
        invariant
            0 <= i <= n,
            n == caps@.len(),
            cv == caps@.map_values(|c: (String, String, String)| (c.0@, c.1@, c.2@)),
            cv == emoji_captures(content@),
            out@.map_values(|e: Emoji| e@) =~= spec_emojis_of(cv.take(i as int), guild_id),
        ensures
            out@.map_values(|e: Emoji| e@) =~= spec_emojis_of(cv, guild_id),
        decreases n - i,
    {
        if i >= n {
            proof {
                assert(cv.take(n as int) =~= cv);
            }
            break;
        }
        let digits = &caps[i].0;
        let dlen = digits.as_str().unicode_len();
        let ghost outpre = out@;
        let parsed = parse_u64_at(digits.as_str(), 0);
        let mut take_it = false;
        let mut idv: u64 = 0;
        match parsed {
            Some((id, end)) => {
                if end == dlen && id > 0 {
                    take_it = true;
                    idv = id;
                }
            },
            None => {},
        }
        proof {
            let c = cv[i as int];
            assert(c == (caps@[i as int].0@, caps@[i as int].1@, caps@[i as int].2@));
            crate::text::lemma_digit_run_end(c.0, 0);
            if take_it {
                assert(c.0.subrange(0, c.0.len() as int) =~= c.0);
            }
        }
        if take_it {
            let animated = crate::text::str_eq(caps[i].2.as_str(), "a");
            out.push(
                Emoji {
                    id: idv,
                    guild_id,
                    name: caps[i].1.clone(),
                    animated,
                },
            );
            proof {
                assert(out@.map_values(|e: Emoji| e@) =~= outpre.map_values(
                    |e: Emoji| e@,
                ).push(
                    EmojiV {
                        id: idv,
                        guild_id,
                        name: cv[i as int].1,
                        animated: cv[i as int].2 == "a"@,
                    },
                ));
            }
        }
        proof {
            let c = cv[i as int];
            let t = cv.take(i as int + 1);
            assert(t.drop_last() =~= cv.take(i as int));
            assert(t.last() == c);
            if !take_it {
                // the capture is dropped by the spec as well
                if c.0.len() > 0 && is_dec_digit(c.0[0]) && digit_run_end(c.0, 0) == c.0.len()
                    && 0 < dec_value(c.0) <= u64::MAX {
                    assert(c.0.subrange(0, c.0.len() as int) =~= c.0);
                    assert(false);
                }
            }
        }
        i = i + 1;
    }
    out
}

/// Some row in `out` carries this id.
pub open spec fn covered(out: Seq<(Emoji, i16)>, id: u64) -> bool {
    exists|a: int| 0 <= a < out.len() && (#[trigger] out[a]).0.id == id
}

/// Some input emoji carries this id.
pub open spec fn from_input(emojis: Seq<Emoji>, id: u64) -> bool {
    exists|j: int| 0 <= j < emojis.len() && (#[trigger] emojis[j]).id == id
}

/// How often each emoji occurs, counted by id; the first occurrence's
/// record is kept.  Counts are `i16`: a message is at most 2000 characters,
/// so no count can get near the bound.
pub fn count_emojis(emojis: Vec<Emoji>) -> (r: Vec<(Emoji, i16)>)
    requires
        emojis@.len() <= 32000,
    ensures
        forall|a: int, b: int|
            0 <= a < b < r@.len() ==> (#[trigger] r@[a]).0.id != (#[trigger] r@[b]).0.id,
        forall|a: int|
            0 <= a < r@.len() ==> (#[trigger] r@[a]).1 as int == count_of(
                emojis@.map_values(|e: Emoji| e@),
                r@[a].0.id,
            ),
        forall|j: int| 0 <= j < emojis@.len() ==> covered(r@, (#[trigger] emojis@[j]).id),
        forall|a: int| 0 <= a < r@.len() ==> (#[trigger] r@[a]).1 >= 1,
        forall|a: int| 0 <= a < r@.len() ==> from_input(emojis@, (#[trigger] r@[a]).0.id),
{
    let n = emojis.len();
    let mut out: Vec<(Emoji, i16)> = Vec::new();
    let mut i: usize = 0;
    let ghost ev = emojis@.map_values(|e: Emoji| e@);
    proof {
        assert(ev.take(0) =~= Seq::<EmojiV>::empty());
        lemma_count_of_empty(ev.take(0));
    }
    loop
        invariant
            0 <= i <= n,
            n == emojis@.len(),
            n <= 32000,
            ev == emojis@.map_values(|e: Emoji| e@),
            forall|a: int, b: int|
                0 <= a < b < out@.len() ==> (#[trigger] out@[a]).0.id != (
                #[trigger] out@[b]).0.id,
            forall|a: int|
                0 <= a < out@.len() ==> (#[trigger] out@[a]).1 as int == count_of(
                    ev.take(i as int),
                    out@[a].0.id,
                ),
            forall|j: int| 0 <= j < i ==> covered(out@, (#[trigger] emojis@[j]).id),
            forall|a: int| 0 <= a < out@.len() ==> (#[trigger] out@[a]).1 >= 1,
        ensures
            i == n,
            n == emojis@.len(),
            ev == emojis@.map_values(|e: Emoji| e@),
            forall|a: int, b: int|
                0 <= a < b < out@.len() ==> (#[trigger] out@[a]).0.id != (
                #[trigger] out@[b]).0.id,
            forall|a: int|
                0 <= a < out@.len() ==> (#[trigger] out@[a]).1 as int == count_of(
                    ev,
                    out@[a].0.id,
                ),
            forall|j: int| 0 <= j < i ==> covered(out@, (#[trigger] emojis@[j]).id),
            forall|a: int| 0 <= a < out@.len() ==> (#[trigger] out@[a]).1 >= 1,
        decreases n - i,
    {
        if i >= n {
            proof {
                assert(ev.take(n as int) =~= ev);
            }
            break;
        }
        proof {
            lemma_count_of_bounded(ev.take(i as int));
        }
        let id = emojis[i].id;
        // find an existing row for this id
        let on = out.len();
        let mut a: usize = 0;
        loop
            invariant
                0 <= a <= on,
                on == out@.len(),
                forall|m: int| 0 <= m < a ==> (#[trigger] out@[m]).0.id != id,
            ensures
                a <= on,
                forall|m: int| 0 <= m < a ==> (#[trigger] out@[m]).0.id != id,
                a < on ==> out@[a as int].0.id == id,
            decreases on - a,
        {
            if a >= on {
                break;
            }
            if out[a].0.id == id {
                break;
            }
            a = a + 1;
        }
        let ghost outpre = out@;
        if a < on {
            let cur = out[a].1;
            proof {
                lemma_count_step(ev, i as int, id);
            }
            let e = out.remove(a);
            let next = cur + 1;
            out.insert(a, (e.0, next));
            proof {
                assert(out@ =~= outpre.update(a as int, (outpre[a as int].0, next)));
                assert forall|m: int|
                    0 <= m < out@.len() implies (#[trigger] out@[m]).1 as int == count_of(
                    ev.take(i as int + 1),
                    out@[m].0.id,
                ) by {
                    lemma_count_step(ev, i as int, out@[m].0.id);
                }
                assert forall|j: int|
                    0 <= j < i + 1 implies covered(out@, (#[trigger] emojis@[j]).id) by {
                    if j == i {
                        assert(out@[a as int].0.id == id);
                    } else {
                        let b = choose|b: int|
                            0 <= b < outpre.len() && (#[trigger] outpre[b]).0.id
                                == emojis@[j].id;
                        assert(out@[b].0.id == emojis@[j].id);
                    }
                }
            }
        } else {
            let e = duplicate_emoji_at(&emojis, i);
            out.push((e, 1i16));
            proof {
                assert forall|m: int|
                    0 <= m < out@.len() implies (#[trigger] out@[m]).1 as int == count_of(
                    ev.take(i as int + 1),
                    out@[m].0.id,
                ) by {
                    lemma_count_step(ev, i as int, out@[m].0.id);
                    if m < outpre.len() {
                        assert(out@[m] == outpre[m]);
                        assert(out@[m].0.id != id);
                    } else {
                        lemma_count_of_zero_when_absent(ev.take(i as int), id);
                    }
                }
                assert forall|j: int|
                    0 <= j < i + 1 implies covered(out@, (#[trigger] emojis@[j]).id) by {
                    if j == i {
                        assert(out@[out@.len() - 1].0.id == id);
                    } else {
                        let b = choose|b: int|
                            0 <= b < outpre.len() && (#[trigger] outpre[b]).0.id
                                == emojis@[j].id;
                        assert(out@[b].0.id == emojis@[j].id);
                    }
                }
            }
        }
        i = i + 1;
    }
    proof {
        assert forall|a: int|
            0 <= a < out@.len() implies from_input(emojis@, (#[trigger] out@[a]).0.id) by {
            assert(count_of(ev, out@[a].0.id) >= 1);
            lemma_count_positive_means_present(ev, out@[a].0.id);
            let j = choose|j: int| 0 <= j < ev.len() && (#[trigger] ev[j]).id == out@[a].0.id;
            assert(emojis@[j].id == ev[j].id);
        }
    }
    out
}

/// A positive tally means the id occurs in the input.
proof fn lemma_count_positive_means_present(s: Seq<EmojiV>, id: u64)
    requires
        count_of(s, id) > 0,
    ensures
        exists|j: int| 0 <= j < s.len() && (#[trigger] s[j]).id == id,
    decreases s.len(),
{
    if s.last().id == id {
        assert(s[s.len() - 1].id == id);
    } else {
        lemma_count_positive_means_present(s.drop_last(), id);
        let j = choose|j: int|
            0 <= j < s.drop_last().len() && (#[trigger] s.drop_last()[j]).id == id;
        assert(s[j].id == id);
    }
}

/// A field-for-field copy of the emoji at an index.
fn duplicate_emoji_at(emojis: &Vec<Emoji>, i: usize) -> (r: Emoji)
    requires
        i < emojis@.len(),
    ensures
        r@ == emojis@[i as int]@,
        r.id == emojis@[i as int].id,
{
    Emoji {
        id: emojis[i].id,
        guild_id: emojis[i].guild_id,
        name: emojis[i].name.clone(),
        animated: emojis[i].animated,
    }
}

/// How many records in `s` carry this id.
pub open spec fn count_of(s: Seq<EmojiV>, id: u64) -> int
    decreases s.len(),
{
    if s.len() == 0 {
        0
    } else {
        count_of(s.drop_last(), id) + (if s.last().id == id {
            1int
        } else {
            0int
        })
    }
}

proof fn lemma_count_of_empty(s: Seq<EmojiV>)
    requires
        s.len() == 0,
    ensures
        forall|id: u64| count_of(s, id) == 0,
{
}

proof fn lemma_count_of_bounded(s: Seq<EmojiV>)
    ensures
        forall|id: u64| 0 <= #[trigger] count_of(s, id) <= s.len(),
    decreases s.len(),
{
    if s.len() > 0 {
        lemma_count_of_bounded(s.drop_last());
        assert forall|id: u64| 0 <= #[trigger] count_of(s, id) <= s.len() by {
            assert(0 <= count_of(s.drop_last(), id) <= s.drop_last().len());
        }
    }
}

/// One more element changes the count of its own id by one and no other.
proof fn lemma_count_step(ev: Seq<EmojiV>, i: int, id: u64)
    requires
        0 <= i < ev.len(),
    ensures
        count_of(ev.take(i + 1), id) == count_of(ev.take(i), id) + (if ev[i].id == id {
            1int
        } else {
            0int
        }),
{
    let t = ev.take(i + 1);
    assert(t.drop_last() =~= ev.take(i));
    assert(t.last() == ev[i]);
}

proof fn lemma_count_of_zero_when_absent(s: Seq<EmojiV>, id: u64)
    requires
        forall|j: int| 0 <= j < s.len() ==> (#[trigger] s[j]).id != id,
    ensures
        count_of(s, id) == 0,
    decreases s.len(),
{
    if s.len() > 0 {
        lemma_count_of_zero_when_absent(s.drop_last(), id);
    }
}

/// The count a previous tally holds for an id; zero when absent.
pub open spec fn spec_count_for(counts: Seq<(EmojiV, i16)>, id: u64) -> int
    decreases counts.len(),
{
    if counts.len() == 0 {
        0
    } else if counts.first().0.id == id {
        counts.first().1 as int
    } else {
        spec_count_for(counts.drop_first(), id)
    }
}

/// The emoji whose use count grew between two tallies of a message: for
/// an edit, these are the new uses to record.  An emoji that only kept or
/// lost occurrences records nothing.
pub open spec fn spec_new_uses(
    old_counts: Seq<(EmojiV, i16)>,
    new_counts: Seq<(EmojiV, i16)>,
) -> Seq<EmojiV>
    decreases new_counts.len(),
{
    if new_counts.len() == 0 {
        Seq::empty()
    } else {
        let rest = spec_new_uses(old_counts, new_counts.drop_last());
        if new_counts.last().1 as int > spec_count_for(old_counts, new_counts.last().0.id) {
            rest.push(new_counts.last().0)
        } else {
            rest
        }
    }
}

/// The previous count for an id.
fn count_for(counts: &Vec<(Emoji, i16)>, id: u64) -> (r: i16)
    ensures
        r as int == spec_count_for(counts@.map_values(|p: (Emoji, i16)| (p.0@, p.1)), id),
{
    let n = counts.len();
    let mut i: usize = 0;
    let ghost cv = counts@.map_values(|p: (Emoji, i16)| (p.0@, p.1));
    proof {
        assert(cv.skip(0) =~= cv);
    }
    loop
        invariant
            0 <= i <= n,
            n == counts@.len(),
            cv == counts@.map_values(|p: (Emoji, i16)| (p.0@, p.1)),
            spec_count_for(cv, id) == spec_count_for(cv.skip(i as int), id),
        ensures
            i <= n,
            i < n ==> counts@[i as int].0.id == id && spec_count_for(cv, id)
                == counts@[i as int].1 as int,
            i == n ==> spec_count_for(cv, id) == 0,
        decreases n - i,
    {
        if i >= n {
            proof {
                assert(cv.skip(n as int).len() == 0);
            }
            break;
        }
        proof {
            assert(cv.skip(i as int).first() == cv[i as int]);
            assert(cv.skip(i as int).drop_first() =~= cv.skip(i as int + 1));
        }
        if counts[i].0.id == id {
            break;
        }
        i = i + 1;
    }
    if i < n {
        counts[i].1
    } else {
        0
    }
}

/// The new uses an edit introduces: each emoji of the new tally whose
/// count exceeds its old count, in tally order.
pub fn emoji_use_delta(old_counts: &Vec<(Emoji, i16)>, new_counts: &Vec<(Emoji, i16)>) -> (r:
    Vec<Emoji>)
    ensures
        r@.map_values(|e: Emoji| e@) =~= spec_new_uses(
            old_counts@.map_values(|p: (Emoji, i16)| (p.0@, p.1)),
            new_counts@.map_values(|p: (Emoji, i16)| (p.0@, p.1)),
        ),
{
    let n = new_counts.len();
    let mut out: Vec<Emoji> = Vec::new();
    let mut i: usize = 0;
    let ghost ov = old_counts@.map_values(|p: (Emoji, i16)| (p.0@, p.1));
    let ghost nv = new_counts@.map_values(|p: (Emoji, i16)| (p.0@, p.1));
    proof {
        assert(out@.map_values(|e: Emoji| e@) =~= spec_new_uses(ov, nv.take(0)));
    }
    loop
        invariant
            0 <= i <= n,
            n == new_counts@.len(),
            ov == old_counts@.map_values(|p: (Emoji, i16)| (p.0@, p.1)),
            nv == new_counts@.map_values(|p: (Emoji, i16)| (p.0@, p.1)),
            out@.map_values(|e: Emoji| e@) =~= spec_new_uses(ov, nv.take(i as int)),
        ensures
            out@.map_values(|e: Emoji| e@) =~= spec_new_uses(ov, nv),
        decreases n - i,
    {
        if i >= n {
            proof {
                assert(nv.take(n as int) =~= nv);
            }
            break;
        }
        let ghost outpre = out@;
        let prev = count_for(old_counts, new_counts[i].0.id);
        if new_counts[i].1 > prev {
            let e = Emoji {
                id: new_counts[i].0.id,
                guild_id: new_counts[i].0.guild_id,
                name: new_counts[i].0.name.clone(),
                animated: new_counts[i].0.animated,
            };
            out.push(e);
            proof {
                assert(out@.map_values(|x: Emoji| x@) =~= outpre.map_values(
                    |x: Emoji| x@,
                ).push(nv[i as int].0));
            }
        }
        proof {
            let t = nv.take(i as int + 1);
            assert(t.drop_last() =~= nv.take(i as int));
            assert(t.last() == nv[i as int]);
        }
        i = i + 1;
    }
    out
}

/// What the emoji-clone command decides to do with its arguments.
pub enum ClonePlan {
    /// No emoji was found in the argument: reply and stop.
    NoEmojis,
    /// A new name was given for more than one emoji: reply and stop.
    NameNeedsSingleEmoji,
    /// More than ten emoji at once: reply and stop.
    TooMany,
    /// Clone the one emoji under the given name.
    Single { name: String },
    /// Clone each emoji under its own name with the prefix applied.
    Multi { names: Vec<String> },
}

/// The names a multi-clone creates: the prefix before each emoji's name.
pub open spec fn spec_prefixed_names(emojis: Seq<EmojiV>, prefix: Seq<char>) -> Seq<Seq<char>>
    decreases emojis.len(),
{
    if emojis.len() == 0 {
        Seq::empty()
    } else {
        spec_prefixed_names(emojis.drop_last(), prefix).push(prefix + emojis.last().name)
    }
}

/// Decides what the emoji-clone command does: nothing without emoji; a
/// given name applies to exactly one emoji; at most ten at once; otherwise
/// each emoji is cloned under the prefix plus its own name.
pub fn clone_plan(emojis: &Vec<Emoji>, new_name: Option<String>, prefix: Option<String>) -> (r:
    ClonePlan)
    ensures
        emojis@.len() == 0 <==> r is NoEmojis,
        emojis@.len() > 0 && new_name is Some && emojis@.len() > 1 <==> r
            is NameNeedsSingleEmoji,
        emojis@.len() == 1 && new_name is Some ==> (r matches ClonePlan::Single { name }
            && name@ == new_name->0@),
        emojis@.len() > 10 && new_name is None <==> r is TooMany,
        emojis@.len() > 0 && emojis@.len() <= 10 && new_name is None ==> (r matches
            ClonePlan::Multi { names } && names@.map_values(|s: String| s@)
            =~= spec_prefixed_names(emojis@.map_values(|e: Emoji| e@), match prefix {
            Some(p) => p@,
            None => Seq::<char>::empty(),
        })),
{
    if emojis.len() == 0 {
        return ClonePlan::NoEmojis;
    }
    match new_name {
        Some(name) => {
            if emojis.len() > 1 {
                ClonePlan::NameNeedsSingleEmoji
            } else {
                ClonePlan::Single { name }
            }
        },
        None => {
            if emojis.len() > 10 {
                return ClonePlan::TooMany;
            }
            let p: String = match prefix {
                Some(p) => p,
                None => String::new(),
            };
            let n = emojis.len();
            let mut names: Vec<String> = Vec::new();
            let mut i: usize = 0;
            let ghost ev = emojis@.map_values(|e: Emoji| e@);
            proof {
                assert(names@.map_values(|s: String| s@) =~= spec_prefixed_names(
                    ev.take(0),
                    p@,
                ));
            }
            loop
                invariant
                    0 <= i <= n,
                    n == emojis@.len(),
                    ev == emojis@.map_values(|e: Emoji| e@),
                    names@.map_values(|s: String| s@) =~= spec_prefixed_names(
                        ev.take(i as int),
                        p@,
                    ),
                ensures
                    names@.map_values(|s: String| s@) =~= spec_prefixed_names(ev, p@),
                decreases n - i,
            {
                if i >= n {
                    proof {
                        assert(ev.take(n as int) =~= ev);
                    }
                    break;
                }
                let ghost pre = names@;
                let mut name = p.clone();
                name.append(emojis[i].name.as_str());
                names.push(name);
                proof {
                    assert(names@.map_values(|s: String| s@) =~= pre.map_values(
                        |s: String| s@,
                    ).push(p@ + ev[i as int].name));
                    let t = ev.take(i as int + 1);
                    assert(t.drop_last() =~= ev.take(i as int));
                    assert(t.last() == ev[i as int]);
                }
                i = i + 1;
            }
            ClonePlan::Multi { names }
        },
    }
}

} // verus!
