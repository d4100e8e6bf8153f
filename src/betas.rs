//! The version branches an item offers, as shown to the user.

use vstd::prelude::*;
use crate::text::{chars_of, trim, trimmed_string, eq_ci, str_eq_ignore_case, ascii_lower, ascii_lower_chars};
use crate::settings::trimmed_or;

verus! {

/// A version branch of an item.
pub struct GameVersionBetaOptionResponse {
    pub id: String,
    pub name: String,
    pub description: String,
    pub last_updated: String,
    pub build_id: Option<String>,
    pub requires_access_code: bool,
    pub is_default: bool,
}

/// What a branch denotes.
pub struct BetaOption {
    pub id: Seq<char>,
    pub name: Seq<char>,
    pub description: Seq<char>,
    pub last_updated: Seq<char>,
    pub build_id: Option<Seq<char>>,
    pub requires_access_code: bool,
    pub is_default: bool,
}

pub open spec fn beta_view(o: GameVersionBetaOptionResponse) -> BetaOption {
    BetaOption {
        id: o.id@,
        name: o.name@,
        description: o.description@,
        last_updated: o.last_updated@,
        build_id: match o.build_id {
            Some(b) => Some(b@),
            None => None,
        },
        requires_access_code: o.requires_access_code,
        is_default: o.is_default,
    }
}

pub open spec fn betas_view(v: Seq<GameVersionBetaOptionResponse>) -> Seq<BetaOption> {
    v.map_values(|o: GameVersionBetaOptionResponse| beta_view(o))
}

/// The public branch alone.
pub fn default_game_version_beta_options() -> (r: Vec<GameVersionBetaOptionResponse>)
    ensures
        betas_view(r@) == seq![
            BetaOption {
                id: "public"@,
                name: "Default Public Version"@,
                description: "Most common version of the game"@,
                last_updated: "Unavailable"@,
                build_id: None,
                requires_access_code: false,
                is_default: true,
            },
        ],
{
    let mut r: Vec<GameVersionBetaOptionResponse> = Vec::new();
    r.push(
        GameVersionBetaOptionResponse {
            id: String::from_str("public"),
            name: String::from_str("Default Public Version"),
            description: String::from_str("Most common version of the game"),
            last_updated: String::from_str("Unavailable"),
            build_id: None,
            requires_access_code: false,
            is_default: true,
        },
    );
    assert(betas_view(r@) =~= seq![beta_view(r@[0])]);
    r
}

/// A branch as shown: texts trimmed, the name defaulting to the id, a
/// description and an update time filled in where blank, a blank build id
/// dropped; the `public` branch is the default one.
pub open spec fn normalize_option(o: BetaOption) -> BetaOption {
    let id = trim(o.id);
    let d = o.is_default || eq_ci(id, "public"@);
    BetaOption {
        id,
        name: trimmed_or(o.name, id),
        description: if trim(o.description).len() == 0 {
            if d {
                "Most common version of the game"@
            } else if o.requires_access_code {
                "Requires access code"@
            } else {
                "No description available"@
            }
        } else {
            trim(o.description)
        },
        last_updated: trimmed_or(o.last_updated, "Unavailable"@),
        build_id: match o.build_id {
            Some(b) => if trim(b).len() > 0 {
                Some(trim(b))
            } else {
                None
            },
            None => None,
        },
        requires_access_code: o.requires_access_code,
        is_default: d,
    }
}

/// The branches with a non-blank id, each id once ignoring ASCII case (the
/// first kept), normalized, appended to `acc`.
pub open spec fn distinct_options(acc: Seq<BetaOption>, xs: Seq<BetaOption>) -> Seq<BetaOption>
    decreases xs.len(),
{
    if xs.len() == 0 {
        acc
    } else {
        let id = trim(xs[0].id);
        if id.len() == 0 || exists|i: int| 0 <= i < acc.len() && eq_ci(#[trigger] acc[i].id, id) {
            distinct_options(acc, xs.drop_first())
        } else {
            distinct_options(acc.push(normalize_option(xs[0])), xs.drop_first())
        }
    }
}

/// Strict lexicographic order by code point.
pub open spec fn text_lt(a: Seq<char>, b: Seq<char>) -> bool
    decreases a.len(),
{
    if a.len() == 0 {
        b.len() > 0
    } else if b.len() == 0 {
        false
    } else if a[0] != b[0] {
        (a[0] as u32) < (b[0] as u32)
    } else {
        text_lt(a.drop_first(), b.drop_first())
    }
}

/// Whether `a` is shown before `b`: the default branch first, then by name
/// ignoring ASCII case.
pub open spec fn goes_before(a: BetaOption, b: BetaOption) -> bool {
    (a.is_default && !b.is_default) || (a.is_default == b.is_default && text_lt(
        ascii_lower(a.name),
        ascii_lower(b.name),
    ))
}

/// Where `x` goes in `s`: before the first item from `i` on that it goes
/// before, else at the end (so that equal items keep their order).
pub open spec fn insert_pos(s: Seq<BetaOption>, x: BetaOption, i: int) -> int
    decreases s.len() - i,
{
    if i < 0 || i >= s.len() {
        s.len() as int
    } else if goes_before(x, s[i]) {
        i
    } else {
        insert_pos(s, x, i + 1)
    }
}

/// The items in display order, equal ones in their original order.
pub open spec fn sort_options(xs: Seq<BetaOption>) -> Seq<BetaOption>
    decreases xs.len(),
{
    if xs.len() == 0 {
        xs
    } else {
        let s = sort_options(xs.drop_last());
        s.insert(insert_pos(s, xs.last(), 0), xs.last())
    }
}

proof fn lemma_insert_pos_bounds(s: Seq<BetaOption>, x: BetaOption, i: int)
    requires
        0 <= i <= s.len(),
    ensures
        i <= insert_pos(s, x, i) <= s.len(),
    decreases s.len() - i,
{
    if i < s.len() && !goes_before(x, s[i]) {
        lemma_insert_pos_bounds(s, x, i + 1);
    }
}

fn text_lt_exec(a: &Vec<char>, b: &Vec<char>) -> (r: bool)
    ensures
        r == text_lt(a@, b@),
{
    let mut i: usize = 0;
    assert(a@.subrange(0, a@.len() as int) =~= a@);
    assert(b@.subrange(0, b@.len() as int) =~= b@);
    loop
        invariant
            0 <= i <= a@.len(),
            i <= b@.len(),
            text_lt(a@.subrange(i as int, a@.len() as int), b@.subrange(i as int, b@.len() as int))
                == text_lt(a@, b@),
        decreases a@.len() - i,
    {
        let ghost x = a@.subrange(i as int, a@.len() as int);
        let ghost y = b@.subrange(i as int, b@.len() as int);
        if i >= a.len() {
            return i < b.len();
        }
        if i >= b.len() {
            return false;
        }
        assert(x[0] == a@[i as int] && y[0] == b@[i as int]);
        let ca: char = a[i];
        let cb: char = b[i];
        if ca != cb {
            return (ca as u32) < (cb as u32);
        }
        assert(x.drop_first() =~= a@.subrange(i + 1, a@.len() as int));
        assert(y.drop_first() =~= b@.subrange(i + 1, b@.len() as int));
        i = i + 1;
    }
}

fn goes_before_exec(a: &GameVersionBetaOptionResponse, b: &GameVersionBetaOptionResponse) -> (r: bool)
    ensures
        r == goes_before(beta_view(*a), beta_view(*b)),
{
    if a.is_default != b.is_default {
        return a.is_default;
    }
    let x = chars_of(a.name.as_str());
    let y = chars_of(b.name.as_str());
    let lx = ascii_lower_chars(x.as_slice());
    let ly = ascii_lower_chars(y.as_slice());
    text_lt_exec(&lx, &ly)
}

fn trimmed_or_exec(v: &String, fallback: &String) -> (r: String)
    ensures
        r@ == trimmed_or(v@, fallback@),
{
    let t = trimmed_string(v.as_str());
    if t.as_str().unicode_len() == 0 {
        fallback.clone()
    } else {
        t
    }
}

fn normalize_option_exec(o: &GameVersionBetaOptionResponse) -> (r: GameVersionBetaOptionResponse)
    ensures
        beta_view(r) == normalize_option(beta_view(*o)),
{
    let id = trimmed_string(o.id.as_str());
    let d = o.is_default || str_eq_ignore_case(id.as_str(), "public");
    let name = trimmed_or_exec(&o.name, &id);
    let desc = trimmed_string(o.description.as_str());
    let description = if desc.as_str().unicode_len() == 0 {
        if d {
            String::from_str("Most common version of the game")
        } else if o.requires_access_code {
            String::from_str("Requires access code")
        } else {
            String::from_str("No description available")
        }
    } else {
        desc
    };
    let unavailable = String::from_str("Unavailable");
    let last_updated = trimmed_or_exec(&o.last_updated, &unavailable);
    let build_id = match &o.build_id {
        Some(b) => {
            let t = trimmed_string(b.as_str());
            if t.as_str().unicode_len() > 0 {
                Some(t)
            } else {
                None
            }
        },
        None => None,
    };
    GameVersionBetaOptionResponse {
        id,
        name,
        description,
        last_updated,
        build_id,
        requires_access_code: o.requires_access_code,
        is_default: d,
    }
}

/// The branches as shown: those with a blank id dropped, each id once
/// ignoring ASCII case, each normalized, the default branch first and the
/// rest by name ignoring ASCII case, ties in their given order.
pub fn normalize_game_version_beta_options(options: &[GameVersionBetaOptionResponse]) -> (r: Vec<
    GameVersionBetaOptionResponse,
>)
    ensures
        betas_view(r@) == sort_options(distinct_options(seq![], betas_view(options@))),
{
    let ghost ov = betas_view(options@);
    let mut kept: Vec<GameVersionBetaOptionResponse> = Vec::new();
    let mut i: usize = 0;
    assert(betas_view(kept@) =~= Seq::<BetaOption>::empty());
    assert(ov.subrange(0, ov.len() as int) =~= ov);
    while i < options.len()
        invariant
            0 <= i <= options@.len(),
            ov == betas_view(options@),
            ov.len() == options@.len(),
            distinct_options(betas_view(kept@), ov.subrange(i as int, ov.len() as int))
                == distinct_options(seq![], ov),
        decreases options@.len() - i,
    {
        let ghost acc = betas_view(kept@);
        assert(ov.subrange(i as int, ov.len() as int).drop_first() =~= ov.subrange(
            i + 1,
            ov.len() as int,
        ));
        assert(ov[i as int] == beta_view(options@[i as int]));
        let t = crate::text::trimmed_chars(options[i].id.as_str());
        let mut found = false;
        let mut j: usize = 0;
        if t.len() > 0 {
            while j < kept.len()
                invariant
                    0 <= j <= kept@.len(),
                    acc == betas_view(kept@),
                    acc.len() == kept@.len(),
                    found ==> exists|m: int| 0 <= m < acc.len() && eq_ci(#[trigger] acc[m].id, t@),
                    !found ==> forall|m: int| 0 <= m < j ==> !eq_ci(#[trigger] acc[m].id, t@),
                decreases kept@.len() - j,
            {
                assert(acc[j as int] == beta_view(kept@[j as int]));
                let k = chars_of(kept[j].id.as_str());
                if crate::text::chars_eq_ignore_case(k.as_slice(), t.as_slice()) {
                    assert(eq_ci(acc[j as int].id, t@));
                    found = true;
                }
                j = j + 1;
            }
        }
        if t.len() > 0 && !found {
            let n = normalize_option_exec(&options[i]);
            let ghost nv = beta_view(n);
            kept.push(n);
            assert(betas_view(kept@) =~= acc.push(nv));
        }
        i = i + 1;
    }
    let ghost dv = betas_view(kept@);
    let mut out: Vec<GameVersionBetaOptionResponse> = Vec::new();
    assert(betas_view(out@) =~= sort_options(dv.subrange(0, 0)));
    let mut k: usize = 0;
    while k < kept.len()
        invariant
            0 <= k <= kept@.len(),
            dv == betas_view(kept@),
            dv.len() == kept@.len(),
            betas_view(out@) == sort_options(dv.subrange(0, k as int)),
        decreases kept@.len() - k,
    {
        let ghost sv = betas_view(out@);
        assert(dv.subrange(0, k + 1).drop_last() =~= dv.subrange(0, k as int));
        assert(dv[k as int] == beta_view(kept@[k as int]));
        let x = clone_option(&kept[k]);
        let mut j: usize = 0;
        while j < out.len() && !goes_before_exec(&x, &out[j])
            invariant
                0 <= j <= out@.len(),
                sv == betas_view(out@),
                sv.len() == out@.len(),
                insert_pos(sv, beta_view(x), j as int) == insert_pos(sv, beta_view(x), 0),
            decreases out@.len() - j,
        {
            assert(sv[j as int] == beta_view(out@[j as int]));
            j = j + 1;
        }
        proof {
            if j < out@.len() {
                assert(sv[j as int] == beta_view(out@[j as int]));
            }
        }
        let ghost xv = beta_view(x);
        out.insert(j, x);
        assert(betas_view(out@) =~= sv.insert(j as int, xv));
        k = k + 1;
    }
    assert(dv.subrange(0, k as int) =~= dv);
    out
}

fn clone_option(o: &GameVersionBetaOptionResponse) -> (r: GameVersionBetaOptionResponse)
    ensures
        beta_view(r) == beta_view(*o),
{
    GameVersionBetaOptionResponse {
        id: o.id.clone(),
        name: o.name.clone(),
        description: o.description.clone(),
        last_updated: o.last_updated.clone(),
        build_id: match &o.build_id {
            Some(b) => Some(b.clone()),
            None => None,
        },
        requires_access_code: o.requires_access_code,
        is_default: o.is_default,
    }
}

} // verus!
