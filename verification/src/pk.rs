//! PluralKit integration helpers: member display names and member colors.

use vstd::prelude::*;
use crate::color::{hex_value, spec_hex_digit_part, spec_hex_u32_ok, strip_hashes, Color};

verus! {

/// The role color used when a member has none or an unparseable one.
pub const DEFAULT_ROLE_COLOR: u32 = 0x99AAB5;

/// A PluralKit system member, reduced to what the role logic reads.
#[derive(Debug)]
pub struct PkMember {
    pub name: String,
    pub display_name: Option<String>,
    /// The member's color as a hex string, when one is set.
    pub color: Option<String>,
}

/// The name a member is shown under: the display name when set, the plain
/// name otherwise.
pub fn get_member_name(member: &PkMember) -> (r: String)
    ensures
        member.display_name is Some ==> r@ == member.display_name->0@,
        member.display_name is None ==> r@ == member.name@,
{
    match &member.display_name {
        Some(d) => d.clone(),
        None => member.name.clone(),
    }
}

/// Turns a member's hex color into a role color: an absent or unparseable
/// color falls back to the default role color.
pub fn pk_color_to_discord(hex: Option<String>) -> (r: u32)
    ensures
        hex is None ==> r == DEFAULT_ROLE_COLOR,
        hex matches Some(h) ==> r as int == (if spec_hex_u32_ok(strip_hashes(h@)) {
            hex_value(spec_hex_digit_part(strip_hashes(h@)))
        } else {
            DEFAULT_ROLE_COLOR as int
        }),
{
    match hex {
        Some(h) => match Color::from_str(h.as_str()) {
            Ok(c) => c.0,
            Err(_) => DEFAULT_ROLE_COLOR,
        },
        None => DEFAULT_ROLE_COLOR,
    }
}

/// True when `c` is an ASCII letter.
pub open spec fn is_ascii_alpha(c: char) -> bool {
    (65 <= c as int && c as int <= 90) || (97 <= c as int && c as int <= 122)
}

/// The lowercase form of an ASCII letter; other characters are unchanged.
pub open spec fn lower_char(c: char) -> char {
    if 65 <= c as int && c as int <= 90 {
        ((c as int + 32) as u8) as char
    } else {
        c
    }
}

/// The single-character string for the lowercase form of an ASCII letter.
fn lower_ascii_str(c: char) -> (r: &'static str)
    requires
        is_ascii_alpha(c),
    ensures
        r@ =~= seq![lower_char(c)],
{
    proof {
        reveal_strlit("a");
        reveal_strlit("b");
        reveal_strlit("c");
        reveal_strlit("d");
        reveal_strlit("e");
        reveal_strlit("f");
        reveal_strlit("g");
        reveal_strlit("h");
        reveal_strlit("i");
        reveal_strlit("j");
        reveal_strlit("k");
        reveal_strlit("l");
        reveal_strlit("m");
        reveal_strlit("n");
        reveal_strlit("o");
        reveal_strlit("p");
        reveal_strlit("q");
        reveal_strlit("r");
        reveal_strlit("s");
        reveal_strlit("t");
        reveal_strlit("u");
        reveal_strlit("v");
        reveal_strlit("w");
        reveal_strlit("x");
        reveal_strlit("y");
        reveal_strlit("z");
    }
    match c {
        'a' | 'A' => "a",
        'b' | 'B' => "b",
        'c' | 'C' => "c",
        'd' | 'D' => "d",
        'e' | 'E' => "e",
        'f' | 'F' => "f",
        'g' | 'G' => "g",
        'h' | 'H' => "h",
        'i' | 'I' => "i",
        'j' | 'J' => "j",
        'k' | 'K' => "k",
        'l' | 'L' => "l",
        'm' | 'M' => "m",
        'n' | 'N' => "n",
        'o' | 'O' => "o",
        'p' | 'P' => "p",
        'q' | 'Q' => "q",
        'r' | 'R' => "r",
        's' | 'S' => "s",
        't' | 'T' => "t",
        'u' | 'U' => "u",
        'v' | 'V' => "v",
        'w' | 'W' => "w",
        'x' | 'X' => "x",
        'y' | 'Y' => "y",
        'z' | 'Z' => "z",
        _ => "a",
    }
}

/// One past the trailing whitespace: the index after the last
/// non-whitespace character.
pub open spec fn rtrim_end(s: Seq<char>) -> int
    decreases s.len(),
{
    if s.len() > 0 && crate::text::is_json_ws(s.last()) {
        rtrim_end(s.drop_last())
    } else {
        s.len() as int
    }
}

proof fn lemma_rtrim_end_unique(s: Seq<char>, r: int)
    requires
        0 <= r <= s.len(),
        forall|m: int| r <= m < s.len() ==> crate::text::is_json_ws(#[trigger] s[m]),
        r == 0 || !crate::text::is_json_ws(s[r - 1]),
    ensures
        rtrim_end(s) == r,
    decreases s.len(),
{
    if s.len() > 0 && crate::text::is_json_ws(s.last()) {
        assert(r < s.len());
        assert forall|m: int| r <= m < s.drop_last().len() implies crate::text::is_json_ws(
            #[trigger] s.drop_last()[m],
        ) by {
            assert(s.drop_last()[m] == s[m]);
        }
        if r > 0 {
            assert(s.drop_last()[r - 1] == s[r - 1]);
        }
        lemma_rtrim_end_unique(s.drop_last(), r);
    } else {
        if r < s.len() {
            assert(crate::text::is_json_ws(s[s.len() - 1]));
            assert(false);
        }
    }
}

/// The input with ASCII whitespace trimmed from both ends.
pub open spec fn spec_trimmed(s: Seq<char>) -> Seq<char> {
    let l = crate::text::ws_run_end(s, 0);
    if l == s.len() {
        Seq::empty()
    } else {
        s.subrange(l, rtrim_end(s))
    }
}

/// The sanitized form of a system id: hyphens dropped, ASCII letters
/// lowercased; any other character makes the id invalid.
pub open spec fn spec_sanitize_fold(t: Seq<char>) -> Option<Seq<char>>
    decreases t.len(),
{
    if t.len() == 0 {
        Some(Seq::empty())
    } else {
        match spec_sanitize_fold(t.drop_last()) {
            None => None,
            Some(rest) => if t.last() == '-' {
                Some(rest)
            } else if is_ascii_alpha(t.last()) {
                Some(rest.push(lower_char(t.last())))
            } else {
                None
            },
        }
    }
}

/// Cleans up a system id as the setup command does: trims whitespace,
/// drops hyphens, lowercases ASCII letters, and rejects an id holding
/// anything but letters and hyphens.
pub fn sanitize_system_id(s: &str) -> (r: Option<String>)
    ensures
        r is Some <==> spec_sanitize_fold(spec_trimmed(s@)) is Some,
        r is Some ==> Some(r->0@) == spec_sanitize_fold(spec_trimmed(s@)),
{
    let len = s.unicode_len();
    let left = crate::text::skip_ws(s, 0);
    // find the right trim bound
    let mut right: usize = len;
    loop
        invariant
            0 <= right <= len,
            len == s@.len(),
            forall|m: int| right <= m < len ==> crate::text::is_json_ws(#[trigger] s@[m]),
        ensures
            right <= len,
            forall|m: int| right <= m < len ==> crate::text::is_json_ws(#[trigger] s@[m]),
            right == 0 || !crate::text::is_json_ws(s@[right - 1]),
        decreases right,
    {
        if right == 0 {
            break;
        }
        let c = s.get_char(right - 1);
        if !(c == ' ' || c == '\t' || c == '\n' || c == '\r') {
            break;
        }
        right = right - 1;
    }
    proof {
        lemma_rtrim_end_unique(s@, right as int);
    }
    if left >= len {
        proof {
            assert(spec_trimmed(s@).len() == 0);
        }
        return Some(String::new());
    }
    let ghost t = spec_trimmed(s@);
    proof {
        crate::text::lemma_ws_run_end(s@, 0);
        assert(left < len && !crate::text::is_json_ws(s@[left as int]));
        assert(left < right) by {
            if right <= left {
                assert(crate::text::is_json_ws(s@[left as int]));
            }
        }
        assert(t =~= s@.subrange(left as int, right as int));
    }
    let mut out = String::new();
    let mut i: usize = left;
    proof {
        assert(t.take(0) =~= Seq::<char>::empty());
    }
    loop
        invariant
            left <= i <= right,
            right <= len,
            left < right,
            len == s@.len(),
            t == spec_trimmed(s@),
            t =~= s@.subrange(left as int, right as int),
            Some(out@) == spec_sanitize_fold(t.take(i - left)),
        ensures
            Some(out@) == spec_sanitize_fold(t),
        decreases right - i,
    {
        if i >= right {
            proof {
                assert(t.take(t.len() as int) =~= t);
            }
            break;
        }
        let c = s.get_char(i);
        proof {
            assert(t[i - left] == s@[i as int]);
            let k = i - left;
            assert(t.take(k + 1).drop_last() =~= t.take(k));
            assert(t.take(k + 1).last() == t[k]);
        }
        if c == '-' {
            // dropped
        } else if (c >= 'a' && c <= 'z') || (c >= 'A' && c <= 'Z') {
            out.append(lower_ascii_str(c));
        } else {
            proof {
                let k = i - left;
                lemma_sanitize_prefix_none(t, k + 1);
            }
            return None;
        }
        i = i + 1;
    }
    Some(out)
}

/// Once a prefix of the input is invalid, the whole input is.
proof fn lemma_sanitize_prefix_none(t: Seq<char>, k: int)
    requires
        0 <= k <= t.len(),
        spec_sanitize_fold(t.take(k)) is None,
    ensures
        spec_sanitize_fold(t) is None,
    decreases t.len() - k,
{
    if k < t.len() {
        assert(t.take(k + 1).drop_last() =~= t.take(k));
        lemma_sanitize_prefix_none(t, k + 1);
    } else {
        assert(t.take(k) =~= t);
    }
}

/// The names that stand in `a` but not in `b`, in order.
pub fn names_not_in(a: &Vec<String>, b: &Vec<String>) -> (r: Vec<String>)
    ensures
        r@.map_values(|s: String| s@) =~= a@.map_values(|s: String| s@).filter(
            |name: Seq<char>| !b@.map_values(|s: String| s@).contains(name),
        ),
{
    let n = a.len();
    let mut out: Vec<String> = Vec::new();
    let mut i: usize = 0;
    let ghost av = a@.map_values(|s: String| s@);
    let ghost bv = b@.map_values(|s: String| s@);
    let ghost pred = |name: Seq<char>| !bv.contains(name);
    proof {
        reveal(Seq::filter);
        assert(out@.map_values(|s: String| s@) =~= av.take(0).filter(pred));
    }
    loop
        invariant
            0 <= i <= n,
            n == a@.len(),
            av == a@.map_values(|s: String| s@),
            bv == b@.map_values(|s: String| s@),
            pred == (|name: Seq<char>| !bv.contains(name)),
            out@.map_values(|s: String| s@) =~= av.take(i as int).filter(pred),
        ensures
            out@.map_values(|s: String| s@) =~= av.filter(pred),
        decreases n - i,
    {
        if i >= n {
            proof {
                assert(av.take(n as int) =~= av);
            }
            break;
        }
        let mut found = false;
        let bn = b.len();
        let mut j: usize = 0;
        loop
            invariant
                0 <= j <= bn,
                bn == b@.len(),
                bv == b@.map_values(|s: String| s@),
                i < n,
                n == a@.len(),
                av == a@.map_values(|s: String| s@),
                !found ==> forall|m: int| 0 <= m < j ==> bv[m] != av[i as int],
                found ==> bv.contains(av[i as int]),
            ensures
                found == bv.contains(av[i as int]),
            decreases bn - j,
        {
            if j >= bn {
                proof {
                    if bv.contains(av[i as int]) && !found {
                        let w = choose|w: int| 0 <= w < bv.len() && bv[w] == av[i as int];
                        assert(false);
                    }
                }
                break;
            }
            if crate::text::str_eq(b[j].as_str(), a[i].as_str()) {
                found = true;
                proof {
                    assert(bv[j as int] == av[i as int]);
                }
                j = bn;
            } else {
                j = j + 1;
            }
        }
        let ghost outpre = out@;
        if !found {
            out.push(a[i].clone());
        }
        proof {
            reveal(Seq::filter);
            let t = av.take(i as int + 1);
            assert(t.drop_last() =~= av.take(i as int));
            assert(t.last() == av[i as int]);
            if !found {
                assert(out@.map_values(|s: String| s@) =~= outpre.map_values(
                    |s: String| s@,
                ).push(av[i as int]));
            }
        }
        i = i + 1;
    }
    out
}

/// Reconciles the fronter channels of a guild: the fronter names without
/// a channel are created, the channels without a fronter are deleted, and
/// a channel whose fronter is still present is kept.
pub fn fronter_channel_ops(current: &Vec<String>, desired: &Vec<String>) -> (r: (
    Vec<String>,
    Vec<String>,
))
    ensures
        r.0@.map_values(|s: String| s@) =~= desired@.map_values(|s: String| s@).filter(
            |name: Seq<char>| !current@.map_values(|s: String| s@).contains(name),
        ),
        r.1@.map_values(|s: String| s@) =~= current@.map_values(|s: String| s@).filter(
            |name: Seq<char>| !desired@.map_values(|s: String| s@).contains(name),
        ),
{
    let to_create = names_not_in(desired, current);
    let to_delete = names_not_in(current, desired);
    (to_create, to_delete)
}

/// A guild role as the reconciler reads it.
#[derive(Debug)]
pub struct RoleModel {
    pub id: u64,
    pub name: String,
    pub color: u32,
}

/// A member role, existing (with a role id) or wanted (without one).
#[derive(Debug)]
pub struct MemberRole {
    pub id: Option<u64>,
    pub name: String,
    pub color: u32,
}

/// The mathematical value of a member role.
#[verifier::ext_equal]
pub ghost struct MemberRoleV {
    pub id: Option<u64>,
    pub name: Seq<char>,
    pub color: u32,
}

impl View for MemberRole {
    type V = MemberRoleV;

    open spec fn view(&self) -> MemberRoleV {
        MemberRoleV { id: self.id, name: self.name@, color: self.color }
    }
}

/// One change the role reconciler performs upstream.
#[derive(Debug)]
pub enum RoleChange {
    Create { name: String, color: u32 },
    Delete { id: u64, name: String },
    Update { id: u64, name: String, color: u32 },
}

/// A role list holds this name.
pub open spec fn role_named(roles: Seq<MemberRoleV>, name: Seq<char>) -> bool {
    exists|i: int| 0 <= i < roles.len() && (#[trigger] roles[i]).name == name
}

/// An op is justified as a creation: some desired role has this name and
/// color and no current role has the name.
pub open spec fn create_justified(
    current: Seq<MemberRoleV>,
    desired: Seq<MemberRoleV>,
    op: RoleChange,
) -> bool {
    op matches RoleChange::Create { name, color } && (exists|j: int|
        0 <= j < desired.len() && (#[trigger] desired[j]).name == name@ && desired[j].color
            == color) && !role_named(current, name@)
}

/// An op is justified as an update: the named role exists on both sides
/// with different colors, keeps its current id, and takes the desired
/// color.
pub open spec fn update_justified(
    current: Seq<MemberRoleV>,
    desired: Seq<MemberRoleV>,
    op: RoleChange,
) -> bool {
    op matches RoleChange::Update { id, name, color } && (exists|i: int, j: int|
        0 <= i < current.len() && 0 <= j < desired.len() && (#[trigger] current[i]).name
            == name@ && (#[trigger] desired[j]).name == name@ && current[i].id == Some(id)
            && desired[j].color == color && current[i].color != color)
}

/// An op is justified as a deletion: the named role exists with this id
/// and no desired role has the name.
pub open spec fn delete_justified(
    current: Seq<MemberRoleV>,
    desired: Seq<MemberRoleV>,
    op: RoleChange,
) -> bool {
    op matches RoleChange::Delete { id, name } && (exists|i: int|
        0 <= i < current.len() && (#[trigger] current[i]).name == name@ && current[i].id == Some(
            id,
        )) && !role_named(desired, name@)
}

/// The name an operation acts on.
pub open spec fn op_name(op: RoleChange) -> Seq<char> {
    match op {
        RoleChange::Create { name, color } => name@,
        RoleChange::Delete { id, name } => name@,
        RoleChange::Update { id, name, color } => name@,
    }
}

/// The op's name is the name of one of the first `prefix` roles.
pub open spec fn name_among(roles: Seq<MemberRole>, prefix: int, nm: Seq<char>) -> bool {
    exists|q: int| 0 <= q < prefix && (#[trigger] roles[q]).name@ == nm
}

/// The creations and updates of a role reconciliation, from the desired
/// side.
#[verifier::rlimit(100)]
fn role_creations_updates(current: &Vec<MemberRole>, desired: &Vec<MemberRole>) -> (ops: Vec<
    RoleChange,
>)
    requires
        forall|i: int| 0 <= i < current@.len() ==> (#[trigger] current@[i]).id is Some,
        forall|i: int, j: int|
            0 <= i < j < current@.len() ==> (#[trigger] current@[i]).name@ != (
            #[trigger] current@[j]).name@,
        forall|i: int, j: int|
            0 <= i < j < desired@.len() ==> (#[trigger] desired@[i]).name@ != (
            #[trigger] desired@[j]).name@,
    ensures
        forall|k: int|
            0 <= k < ops@.len() ==> create_justified(
                current@.map_values(|r: MemberRole| r@),
                desired@.map_values(|r: MemberRole| r@),
                #[trigger] ops@[k],
            ) || update_justified(
                current@.map_values(|r: MemberRole| r@),
                desired@.map_values(|r: MemberRole| r@),
                ops@[k],
            ),
        forall|k: int| 0 <= k < ops@.len() ==> name_among(desired@, desired@.len() as int, op_name(#[trigger] ops@[k])),
        forall|k1: int, k2: int|
            0 <= k1 < k2 < ops@.len() ==> op_name(#[trigger] ops@[k1]) != op_name(
                #[trigger] ops@[k2],
            ),
        forall|q: int|
            0 <= q < desired@.len() && !role_named(
                current@.map_values(|r: MemberRole| r@),
                (#[trigger] desired@[q]).name@,
            ) ==> (exists|k: int|
                0 <= k < ops@.len() && ((#[trigger] ops@[k]) matches RoleChange::Create {
                    name,
                    color,
                } && name@ == desired@[q].name@ && color == desired@[q].color)),
        forall|i: int, q: int|
            0 <= i < current@.len() && 0 <= q < desired@.len() && (
            #[trigger] current@[i]).name@ == (#[trigger] desired@[q]).name@ && current@[i].color
                != desired@[q].color ==> (exists|k: int|
                0 <= k < ops@.len() && ((#[trigger] ops@[k]) matches RoleChange::Update {
                    id,
                    name,
                    color,
                } && name@ == current@[i].name@ && color == desired@[q].color)),
{
    let mut ops: Vec<RoleChange> = Vec::new();
    let dn = desired.len();
    let cn = current.len();
    let mut j: usize = 0;
    loop
        invariant
            0 <= j <= dn,
            dn == desired@.len(),
            cn == current@.len(),
            forall|i: int| 0 <= i < current@.len() ==> (#[trigger] current@[i]).id is Some,
            forall|i: int, m: int|
                0 <= i < m < current@.len() ==> (#[trigger] current@[i]).name@ != (
                #[trigger] current@[m]).name@,
            forall|i: int, m: int|
                0 <= i < m < desired@.len() ==> (#[trigger] desired@[i]).name@ != (
                #[trigger] desired@[m]).name@,
            forall|k: int|
                0 <= k < ops@.len() ==> name_among(desired@, j as int, op_name(
                    #[trigger] ops@[k],
                )),
            forall|k1: int, k2: int|
                0 <= k1 < k2 < ops@.len() ==> op_name(#[trigger] ops@[k1]) != op_name(
                    #[trigger] ops@[k2],
                ),
            forall|k: int|
                0 <= k < ops@.len() ==> create_justified(
                    current@.map_values(|r: MemberRole| r@),
                    desired@.map_values(|r: MemberRole| r@),
                    #[trigger] ops@[k],
                ) || update_justified(
                    current@.map_values(|r: MemberRole| r@),
                    desired@.map_values(|r: MemberRole| r@),
                    ops@[k],
                ),
            forall|q: int|
                0 <= q < j && !role_named(
                    current@.map_values(|r: MemberRole| r@),
                    (#[trigger] desired@[q]).name@,
                ) ==> (exists|k: int|
                    0 <= k < ops@.len() && ((#[trigger] ops@[k]) matches RoleChange::Create {
                        name,
                        color,
                    } && name@ == desired@[q].name@ && color == desired@[q].color)),
            forall|i: int, q: int|
                0 <= i < current@.len() && 0 <= q < j && (#[trigger] current@[i]).name@ == (
                #[trigger] desired@[q]).name@ && current@[i].color != desired@[q].color ==> (
                exists|k: int|
                    0 <= k < ops@.len() && ((#[trigger] ops@[k]) matches RoleChange::Update {
                        id,
                        name,
                        color,
                    } && name@ == current@[i].name@ && color == desired@[q].color)),
        ensures
            forall|k: int|
                0 <= k < ops@.len() ==> name_among(desired@, dn as int, op_name(
                    #[trigger] ops@[k],
                )),
            forall|k1: int, k2: int|
                0 <= k1 < k2 < ops@.len() ==> op_name(#[trigger] ops@[k1]) != op_name(
                    #[trigger] ops@[k2],
                ),
            forall|k: int|
                0 <= k < ops@.len() ==> create_justified(
                    current@.map_values(|r: MemberRole| r@),
                    desired@.map_values(|r: MemberRole| r@),
                    #[trigger] ops@[k],
                ) || update_justified(
                    current@.map_values(|r: MemberRole| r@),
                    desired@.map_values(|r: MemberRole| r@),
                    ops@[k],
                ),
            forall|q: int|
                0 <= q < dn && !role_named(
                    current@.map_values(|r: MemberRole| r@),
                    (#[trigger] desired@[q]).name@,
                ) ==> (exists|k: int|
                    0 <= k < ops@.len() && ((#[trigger] ops@[k]) matches RoleChange::Create {
                        name,
                        color,
                    } && name@ == desired@[q].name@ && color == desired@[q].color)),
            forall|i: int, q: int|
                0 <= i < current@.len() && 0 <= q < dn && (#[trigger] current@[i]).name@ == (
                #[trigger] desired@[q]).name@ && current@[i].color != desired@[q].color ==> (
                exists|k: int|
                    0 <= k < ops@.len() && ((#[trigger] ops@[k]) matches RoleChange::Update {
                        id,
                        name,
                        color,
                    } && name@ == current@[i].name@ && color == desired@[q].color)),
        decreases dn - j,
    {
        if j >= dn {
            break;
        }
        let mut i: usize = 0;
        loop
            invariant
                0 <= i <= cn,
                cn == current@.len(),
                j < dn,
                dn == desired@.len(),
                forall|m: int|
                    0 <= m < i ==> (#[trigger] current@[m]).name@ != desired@[j as int].name@,
            ensures
                i <= cn,
                forall|m: int|
                    0 <= m < i ==> (#[trigger] current@[m]).name@ != desired@[j as int].name@,
                i < cn ==> current@[i as int].name@ == desired@[j as int].name@,
            decreases cn - i,
        {
            if i >= cn {
                break;
            }
            if crate::text::str_eq(current[i].name.as_str(), desired[j].name.as_str()) {
                break;
            }
            i = i + 1;
        }
        let ghost opspre = ops@;
        let ghost cv = current@.map_values(|r: MemberRole| r@);
        let ghost dv = desired@.map_values(|r: MemberRole| r@);
        if i >= cn {
            proof {
                assert forall|w: int| 0 <= w < cv.len() implies (#[trigger] cv[w]).name
                    != desired@[j as int].name@ by {
                    assert(cv[w] == current@[w]@);
                }
                assert(!role_named(cv, desired@[j as int].name@));
                assert(dv[j as int] == desired@[j as int]@);
            }
            ops.push(
                RoleChange::Create {
                    name: desired[j].name.clone(),
                    color: desired[j].color,
                },
            );
        } else if current[i].color != desired[j].color {
            let id = match current[i].id {
                Some(id) => id,
                None => 0,
            };
            proof {
                assert(cv[i as int] == current@[i as int]@);
                assert(dv[j as int] == desired@[j as int]@);
            }
            ops.push(
                RoleChange::Update {
                    id,
                    name: current[i].name.clone(),
                    color: desired[j].color,
                },
            );
        }
        proof {
            assert forall|q: int|
                0 <= q < j + 1 && !role_named(cv, (#[trigger] desired@[q]).name@) implies (
            exists|k: int|
                0 <= k < ops@.len() && ((#[trigger] ops@[k]) matches RoleChange::Create {
                    name,
                    color,
                } && name@ == desired@[q].name@ && color == desired@[q].color)) by {
                if q < j {
                    let k = choose|k: int|
                        0 <= k < opspre.len() && ((#[trigger] opspre[k]) matches
                        RoleChange::Create { name, color } && name@ == desired@[q].name@
                            && color == desired@[q].color);
                    assert(ops@[k] == opspre[k]);
                } else {
                    if i < cn {
                        assert(cv[i as int].name == desired@[q].name@);
                    } else {
                        assert(ops@[ops@.len() - 1] matches RoleChange::Create { name, color }
                            && name@ == desired@[q].name@ && color == desired@[q].color);
                    }
                }
            }
            assert forall|m: int, q: int|
                0 <= m < current@.len() && 0 <= q < j + 1 && (#[trigger] current@[m]).name@ == (
                #[trigger] desired@[q]).name@ && current@[m].color != desired@[q].color implies (
            exists|k: int|
                0 <= k < ops@.len() && ((#[trigger] ops@[k]) matches RoleChange::Update {
                    id,
                    name,
                    color,
                } && name@ == current@[m].name@ && color == desired@[q].color)) by {
                if q < j {
                    let k = choose|k: int|
                        0 <= k < opspre.len() && ((#[trigger] opspre[k]) matches
                        RoleChange::Update { id, name, color } && name@ == current@[m].name@
                            && color == desired@[q].color);
                    assert(ops@[k] == opspre[k]);
                } else {
                    assert(i < cn);
                    assert(m == i);
                    assert(ops@[ops@.len() - 1] matches RoleChange::Update { id, name, color }
                        && name@ == current@[m].name@ && color == desired@[q].color);
                }
            }
            // every op's name is a desired name seen so far, and no two
            // ops share a name: this round contributes at most one op,
            // named by a fresh desired entry
            assert forall|k: int|
                0 <= k < ops@.len() implies name_among(desired@, j + 1, op_name(
                #[trigger] ops@[k],
            )) by {
                if k < opspre.len() {
                    assert(ops@[k] == opspre[k]);
                    assert(name_among(desired@, j as int, op_name(opspre[k])));
                    let q = choose|q: int|
                        0 <= q < j && (#[trigger] desired@[q]).name@ == op_name(opspre[k]);
                    assert(desired@[q].name@ == op_name(ops@[k]));
                } else {
                    assert(op_name(ops@[k]) == desired@[j as int].name@);
                }
            }
            assert forall|k1: int, k2: int|
                0 <= k1 < k2 < ops@.len() implies op_name(#[trigger] ops@[k1]) != op_name(
                #[trigger] ops@[k2],
            ) by {
                if k2 < opspre.len() {
                    assert(ops@[k1] == opspre[k1] && ops@[k2] == opspre[k2]);
                } else if k2 == opspre.len() && ops@.len() > opspre.len() {
                    assert(ops@[k1] == opspre[k1]);
                    assert(name_among(desired@, j as int, op_name(opspre[k1])));
                    let q = choose|q: int|
                        0 <= q < j && (#[trigger] desired@[q]).name@ == op_name(opspre[k1]);
                    assert(op_name(ops@[k2]) == desired@[j as int].name@);
                    assert(desired@[q].name@ != desired@[j as int].name@);
                }
            }
        }
        j = j + 1;
    }
    ops
}

/// Appends the deletions of a role reconciliation, from the current side,
/// leaving the earlier ops in place.
#[verifier::rlimit(100)]
fn push_role_deletions(ops: &mut Vec<RoleChange>, current: &Vec<MemberRole>, desired: &Vec<
    MemberRole,
>)
    requires
        forall|i: int| 0 <= i < current@.len() ==> (#[trigger] current@[i]).id is Some,
        forall|i: int, j: int|
            0 <= i < j < current@.len() ==> (#[trigger] current@[i]).name@ != (
            #[trigger] current@[j]).name@,
        forall|k: int|
            0 <= k < old(ops)@.len() ==> name_among(desired@, desired@.len() as int, op_name(
                #[trigger] old(ops)@[k],
            )),
        forall|k1: int, k2: int|
            0 <= k1 < k2 < old(ops)@.len() ==> op_name(#[trigger] old(ops)@[k1]) != op_name(
                #[trigger] old(ops)@[k2],
            ),
    ensures
        forall|k1: int, k2: int|
            0 <= k1 < k2 < final(ops)@.len() ==> op_name(#[trigger] final(ops)@[k1]) != op_name(
                #[trigger] final(ops)@[k2],
            ),
        final(ops)@.len() >= old(ops)@.len(),
        forall|k: int| 0 <= k < old(ops)@.len() ==> #[trigger] final(ops)@[k] == old(ops)@[k],
        forall|k: int|
            old(ops)@.len() <= k < final(ops)@.len() ==> delete_justified(
                current@.map_values(|r: MemberRole| r@),
                desired@.map_values(|r: MemberRole| r@),
                #[trigger] final(ops)@[k],
            ),
        forall|i: int|
            0 <= i < current@.len() && !role_named(
                desired@.map_values(|r: MemberRole| r@),
                (#[trigger] current@[i]).name@,
            ) ==> (exists|k: int|
                0 <= k < final(ops)@.len() && ((#[trigger] final(ops)@[k]) matches
                RoleChange::Delete { id, name } && name@ == current@[i].name@)),
{
    let cn = current.len();
    let dn = desired.len();
    let ghost base = ops@;
    let mut i: usize = 0;
    loop
        invariant
            0 <= i <= cn,
            cn == current@.len(),
            dn == desired@.len(),
            forall|m: int| 0 <= m < current@.len() ==> (#[trigger] current@[m]).id is Some,
            ops@.len() >= base.len(),
            forall|k: int| 0 <= k < base.len() ==> #[trigger] ops@[k] == base[k],
            forall|k: int|
                base.len() <= k < ops@.len() ==> delete_justified(
                    current@.map_values(|r: MemberRole| r@),
                    desired@.map_values(|r: MemberRole| r@),
                    #[trigger] ops@[k],
                ),
            forall|i2: int, j2: int|
                0 <= i2 < j2 < current@.len() ==> (#[trigger] current@[i2]).name@ != (
                #[trigger] current@[j2]).name@,
            forall|k: int|
                0 <= k < base.len() ==> name_among(desired@, desired@.len() as int, op_name(
                    #[trigger] ops@[k],
                )),
            forall|k: int|
                base.len() <= k < ops@.len() ==> name_among(current@, i as int, op_name(
                    #[trigger] ops@[k],
                )),
            forall|k1: int, k2: int|
                0 <= k1 < k2 < ops@.len() ==> op_name(#[trigger] ops@[k1]) != op_name(
                    #[trigger] ops@[k2],
                ),
            forall|m: int|
                0 <= m < i && !role_named(
                    desired@.map_values(|r: MemberRole| r@),
                    (#[trigger] current@[m]).name@,
                ) ==> (exists|k: int|
                    0 <= k < ops@.len() && ((#[trigger] ops@[k]) matches RoleChange::Delete {
                        id,
                        name,
                    } && name@ == current@[m].name@)),
        ensures
            ops@.len() >= base.len(),
            forall|k: int| 0 <= k < base.len() ==> #[trigger] ops@[k] == base[k],
            forall|k1: int, k2: int|
                0 <= k1 < k2 < ops@.len() ==> op_name(#[trigger] ops@[k1]) != op_name(
                    #[trigger] ops@[k2],
                ),
            forall|k: int|
                base.len() <= k < ops@.len() ==> delete_justified(
                    current@.map_values(|r: MemberRole| r@),
                    desired@.map_values(|r: MemberRole| r@),
                    #[trigger] ops@[k],
                ),
            forall|m: int|
                0 <= m < cn && !role_named(
                    desired@.map_values(|r: MemberRole| r@),
                    (#[trigger] current@[m]).name@,
                ) ==> (exists|k: int|
                    0 <= k < ops@.len() && ((#[trigger] ops@[k]) matches RoleChange::Delete {
                        id,
                        name,
                    } && name@ == current@[m].name@)),
        decreases cn - i,
    {
        if i >= cn {
            break;
        }
        let mut q: usize = 0;
        loop
            invariant
                0 <= q <= dn,
                dn == desired@.len(),
                i < cn,
                cn == current@.len(),
                forall|m: int|
                    0 <= m < q ==> (#[trigger] desired@[m]).name@ != current@[i as int].name@,
            ensures
                q <= dn,
                forall|m: int|
                    0 <= m < q ==> (#[trigger] desired@[m]).name@ != current@[i as int].name@,
                q < dn ==> desired@[q as int].name@ == current@[i as int].name@,
            decreases dn - q,
        {
            if q >= dn {
                break;
            }
            if crate::text::str_eq(desired[q].name.as_str(), current[i].name.as_str()) {
                break;
            }
            q = q + 1;
        }
        let ghost opspre = ops@;
        let ghost dv = desired@.map_values(|r: MemberRole| r@);
        let ghost cv = current@.map_values(|r: MemberRole| r@);
        if q >= dn {
            proof {
                assert forall|w: int| 0 <= w < dv.len() implies (#[trigger] dv[w]).name
                    != current@[i as int].name@ by {
                    assert(dv[w] == desired@[w]@);
                }
                assert(!role_named(dv, current@[i as int].name@));
                assert(cv[i as int] == current@[i as int]@);
            }
            let id = match current[i].id {
                Some(id) => id,
                None => 0,
            };
            ops.push(
                RoleChange::Delete { id, name: current[i].name.clone() },
            );
            proof {
                assert forall|m: int|
                    0 <= m < i + 1 && !role_named(dv, (#[trigger] current@[m]).name@) implies (
                exists|k: int|
                    0 <= k < ops@.len() && ((#[trigger] ops@[k]) matches RoleChange::Delete {
                        id,
                        name,
                    } && name@ == current@[m].name@)) by {
                    if m < i {
                        let k = choose|k: int|
                            0 <= k < opspre.len() && ((#[trigger] opspre[k]) matches
                            RoleChange::Delete { id, name } && name@ == current@[m].name@);
                        assert(ops@[k] == opspre[k]);
                    } else {
                        assert(ops@[ops@.len() - 1] matches RoleChange::Delete { id, name }
                            && name@ == current@[m].name@);
                    }
                }
                // the new deletion's name is current[i]'s, fresh among the ops
                let newname = op_name(ops@[ops@.len() - 1]);
                assert(newname == current@[i as int].name@);
                assert forall|k: int|
                    base.len() <= k < ops@.len() implies name_among(current@, i + 1, op_name(
                    #[trigger] ops@[k],
                )) by {
                    if k < opspre.len() {
                        assert(ops@[k] == opspre[k]);
                        let m = choose|m: int|
                            0 <= m < i && (#[trigger] current@[m]).name@ == op_name(opspre[k]);
                        assert(current@[m].name@ == op_name(ops@[k]));
                    } else {
                        assert(current@[i as int].name@ == op_name(ops@[k]));
                    }
                }
                assert forall|k1: int, k2: int|
                    0 <= k1 < k2 < ops@.len() implies op_name(#[trigger] ops@[k1]) != op_name(
                    #[trigger] ops@[k2],
                ) by {
                    if k2 < opspre.len() {
                        assert(ops@[k1] == opspre[k1] && ops@[k2] == opspre[k2]);
                    } else {
                        assert(ops@[k1] == opspre[k1]);
                        if k1 < base.len() {
                            // an earlier creation or update carries a desired name,
                            // and the deleted name is not desired
                            let q = choose|q: int|
                                0 <= q < desired@.len() && (#[trigger] desired@[q]).name@
                                    == op_name(opspre[k1]);
                            assert(dv[q].name == desired@[q].name@);
                        } else {
                            // an earlier deletion carries an earlier current name
                            let m = choose|m: int|
                                0 <= m < i && (#[trigger] current@[m]).name@ == op_name(
                                    opspre[k1],
                                );
                        }
                    }
                }
            }
        } else {
            proof {
                assert forall|m: int|
                    0 <= m < i + 1 && !role_named(dv, (#[trigger] current@[m]).name@) implies (
                exists|k: int|
                    0 <= k < ops@.len() && ((#[trigger] ops@[k]) matches RoleChange::Delete {
                        id,
                        name,
                    } && name@ == current@[m].name@)) by {
                    if m == i {
                        assert(dv[q as int].name == current@[m].name@);
                    }
                }
            }
        }
        i = i + 1;
    }
}

/// The operations that reconcile the current member roles with the
/// desired ones, keyed by role name: a desired role with no current one
/// is created, a current role with no desired one is deleted, and a role
/// present in both with a different color is updated in place.  A role
/// whose name and color both match is left alone.
pub fn get_ops(current: &Vec<MemberRole>, desired: &Vec<MemberRole>) -> (ops: Vec<RoleChange>)
    requires
        forall|i: int| 0 <= i < current@.len() ==> (#[trigger] current@[i]).id is Some,
        forall|i: int, j: int|
            0 <= i < j < current@.len() ==> (#[trigger] current@[i]).name@ != (
            #[trigger] current@[j]).name@,
        forall|i: int, j: int|
            0 <= i < j < desired@.len() ==> (#[trigger] desired@[i]).name@ != (
            #[trigger] desired@[j]).name@,
    ensures
        forall|k1: int, k2: int|
            0 <= k1 < k2 < ops@.len() ==> op_name(#[trigger] ops@[k1]) != op_name(
                #[trigger] ops@[k2],
            ),
        forall|k: int|
            0 <= k < ops@.len() ==> create_justified(
                current@.map_values(|r: MemberRole| r@),
                desired@.map_values(|r: MemberRole| r@),
                #[trigger] ops@[k],
            ) || update_justified(
                current@.map_values(|r: MemberRole| r@),
                desired@.map_values(|r: MemberRole| r@),
                ops@[k],
            ) || delete_justified(
                current@.map_values(|r: MemberRole| r@),
                desired@.map_values(|r: MemberRole| r@),
                ops@[k],
            ),
        forall|q: int|
            0 <= q < desired@.len() && !role_named(
                current@.map_values(|r: MemberRole| r@),
                (#[trigger] desired@[q]).name@,
            ) ==> (exists|k: int|
                0 <= k < ops@.len() && ((#[trigger] ops@[k]) matches RoleChange::Create {
                    name,
                    color,
                } && name@ == desired@[q].name@ && color == desired@[q].color)),
        forall|i: int, q: int|
            0 <= i < current@.len() && 0 <= q < desired@.len() && (
            #[trigger] current@[i]).name@ == (#[trigger] desired@[q]).name@ && current@[i].color
                != desired@[q].color ==> (exists|k: int|
                0 <= k < ops@.len() && ((#[trigger] ops@[k]) matches RoleChange::Update {
                    id,
                    name,
                    color,
                } && name@ == current@[i].name@ && color == desired@[q].color)),
        forall|i: int|
            0 <= i < current@.len() && !role_named(
                desired@.map_values(|r: MemberRole| r@),
                (#[trigger] current@[i]).name@,
            ) ==> (exists|k: int|
                0 <= k < ops@.len() && ((#[trigger] ops@[k]) matches RoleChange::Delete {
                    id,
                    name,
                } && name@ == current@[i].name@)),
{
    let mut ops = role_creations_updates(current, desired);
    let ghost base = ops@;
    push_role_deletions(&mut ops, current, desired);
    proof {
        assert forall|q: int|
            0 <= q < desired@.len() && !role_named(
                current@.map_values(|r: MemberRole| r@),
                (#[trigger] desired@[q]).name@,
            ) implies (exists|k: int|
            0 <= k < ops@.len() && ((#[trigger] ops@[k]) matches RoleChange::Create {
                name,
                color,
            } && name@ == desired@[q].name@ && color == desired@[q].color)) by {
            let k = choose|k: int|
                0 <= k < base.len() && ((#[trigger] base[k]) matches RoleChange::Create {
                    name,
                    color,
                } && name@ == desired@[q].name@ && color == desired@[q].color);
            assert(ops@[k] == base[k]);
        }
        assert forall|i: int, q: int|
            0 <= i < current@.len() && 0 <= q < desired@.len() && (
            #[trigger] current@[i]).name@ == (#[trigger] desired@[q]).name@ && current@[i].color
                != desired@[q].color implies (exists|k: int|
            0 <= k < ops@.len() && ((#[trigger] ops@[k]) matches RoleChange::Update {
                id,
                name,
                color,
            } && name@ == current@[i].name@ && color == desired@[q].color)) by {
            let k = choose|k: int|
                0 <= k < base.len() && ((#[trigger] base[k]) matches RoleChange::Update {
                    id,
                    name,
                    color,
                } && name@ == current@[i].name@ && color == desired@[q].color);
            assert(ops@[k] == base[k]);
        }
    }
    ops
}

} // verus!
