use vstd::prelude::*;
use crate::text::str_eq;

verus! {

/// The kind of a governance group.
#[derive(PartialEq, Eq, Structural, Clone, Copy, Debug)]
pub enum TeamKind {
    Team,
    WorkingGroup,
}

/// What the site reads from a team's website entry.
#[derive(Debug)]
pub struct WebsiteData {
    pub page: String,
    pub weight: i64,
}

impl Clone for WebsiteData {
    fn clone(&self) -> (r: WebsiteData)
        ensures
            r == *self,
    {
        WebsiteData { page: self.page.clone(), weight: self.weight }
    }
}

/// What the site reads of one team of the roster.
#[derive(Debug)]
pub struct Team {
    pub name: String,
    pub kind: TeamKind,
    pub subteam_of: Option<String>,
    pub website_data: Option<WebsiteData>,
}

impl Clone for Team {
    fn clone(&self) -> (r: Team)
        ensures
            r == *self,
    {
        Team {
            name: self.name.clone(),
            kind: self.kind,
            subteam_of: match &self.subteam_of {
                Some(s) => Some(s.clone()),
                None => None,
            },
            website_data: match &self.website_data {
                Some(w) => Some(w.clone()),
                None => None,
            },
        }
    }
}

/// The URL section for a team kind.
pub open spec fn kind_str(kind: TeamKind) -> Seq<char> {
    match kind {
        TeamKind::Team => "teams"@,
        TeamKind::WorkingGroup => "wgs"@,
    }
}

/// The URL section a team kind is listed under.
pub fn kind_to_str(kind: TeamKind) -> (r: &'static str)
    ensures
        r@ == kind_str(kind),
{
    match kind {
        TeamKind::Team => "teams",
        TeamKind::WorkingGroup => "wgs",
    }
}

/// A team's website page, empty when it has no website entry.
pub open spec fn team_page(t: Team) -> Seq<char> {
    match t.website_data {
        Some(w) => w.page@,
        None => Seq::empty(),
    }
}

/// A team's listing weight, zero when it has no website entry.
pub open spec fn team_weight(t: Team) -> int {
    match t.website_data {
        Some(w) => w.weight as int,
        None => 0,
    }
}

/// The index URL of a team: its kind's section and its page.
pub open spec fn team_url(t: Team) -> Seq<char> {
    kind_str(t.kind) + "/"@ + team_page(t)
}

/// A team appears on the index under `kind` when it has website data, is no
/// subteam, and is of that kind.
pub open spec fn index_entry(t: Team, kind: TeamKind) -> bool {
    t.website_data is Some && t.subteam_of is None && t.kind == kind
}

/// One index row: a team and its URL.
#[derive(Debug)]
pub struct IndexTeam {
    pub team: Team,
    pub url: String,
}

/// The index page's data: the top-level teams and working groups, each
/// sorted by descending listing weight.
#[derive(Debug)]
pub struct IndexData {
    pub teams: Vec<IndexTeam>,
    pub wgs: Vec<IndexTeam>,
}

/// Rows sorted by descending listing weight.
pub open spec fn sorted_desc(s: Seq<IndexTeam>) -> bool {
    forall|i: int, j: int|
        0 <= i < j < s.len() ==> team_weight(#[trigger] s[i].team) >= team_weight(
            #[trigger] s[j].team,
        )
}

/// A correct selection from `src` of the index rows of `kind`: each eligible
/// team of `src` exactly as often as `src` holds it, each with its URL.
pub open spec fn index_selection(rows: Seq<IndexTeam>, src: Seq<Team>, kind: TeamKind) -> bool {
    &&& rows.map_values(|it: IndexTeam| it.team).to_multiset() == src.filter(
        |t: Team| index_entry(t, kind),
    ).to_multiset()
    &&& forall|k: int|
        0 <= k < rows.len() ==> index_entry((#[trigger] rows[k]).team, kind) && rows[k].url@
            == team_url(rows[k].team) && src.contains(rows[k].team)
    &&& forall|j: int|
        0 <= j < src.len() && index_entry(#[trigger] src[j], kind) ==> exists|k: int|
            0 <= k < rows.len() && (#[trigger] rows[k]).team == src[j]
}

/// Sequences holding the same rows hold the same images of them.
proof fn lemma_map_values_multiset<A, B>(s1: Seq<A>, s2: Seq<A>, f: spec_fn(A) -> B)
    requires
        s1.to_multiset() == s2.to_multiset(),
    ensures
        s1.map_values(f).to_multiset() == s2.map_values(f).to_multiset(),
    decreases s1.len(),
{
    broadcast use vstd::seq_lib::group_to_multiset_ensures;

    vstd::seq_lib::to_multiset_len(s1);
    vstd::seq_lib::to_multiset_len(s2);
    if s1.len() == 0 {
        assert(s1.map_values(f) =~= s2.map_values(f));
    } else {
        let x = s1.last();
        s1.to_multiset_ensures();
        assert(s1.to_multiset().contains(x));
        vstd::seq_lib::to_multiset_contains(s2, x);
        let j = choose|j: int| 0 <= j < s2.len() && s2[j] == x;
        assert(s1.drop_last().push(x) =~= s1);
        s1.drop_last().to_multiset_ensures();
        vstd::seq_lib::to_multiset_remove(s2, j);
        assert(s1.drop_last().to_multiset() =~= s2.remove(j).to_multiset()) by {
            assert(s1.drop_last().to_multiset().insert(x) == s2.to_multiset());
        }
        lemma_map_values_multiset(s1.drop_last(), s2.remove(j), f);
        assert(s1.map_values(f) =~= s1.drop_last().map_values(f).push(f(x)));
        s1.drop_last().map_values(f).to_multiset_ensures();
        assert(s2.remove(j).map_values(f) =~= s2.map_values(f).remove(j));
        vstd::seq_lib::to_multiset_remove(s2.map_values(f), j);
        assert(s2.map_values(f)[j] == f(x));
        assert(s2.map_values(f).to_multiset().contains(f(x))) by {
            vstd::seq_lib::to_multiset_contains(s2.map_values(f), f(x));
        }
        assert(s1.map_values(f).to_multiset() =~= s2.map_values(f).to_multiset()) by {
            assert(s1.map_values(f).to_multiset() == s1.drop_last().map_values(
                f,
            ).to_multiset().insert(f(x)));
            assert(s2.map_values(f).to_multiset().remove(f(x)) == s1.drop_last().map_values(
                f,
            ).to_multiset());
        }
    }
}

fn weight_of(t: &IndexTeam) -> (r: i64)
    ensures
        r as int == team_weight(t.team),
{
    match &t.team.website_data {
        Some(w) => w.weight,
        None => 0,
    }
}

/// Sorts index rows by descending listing weight, keeping exactly the same
/// rows.
fn sort_by_weight(input: Vec<IndexTeam>) -> (r: Vec<IndexTeam>)
    ensures
        r@.to_multiset() == input@.to_multiset(),
        sorted_desc(r@),
{
    broadcast use vstd::seq_lib::group_to_multiset_ensures;

    let ghost orig = input@;
    let mut v = input;
    let mut out: Vec<IndexTeam> = Vec::new();
    let ghost mut i: int = 0;
    while v.len() > 0
        invariant
            0 <= i <= orig.len(),
            v@ == orig.skip(i),
            out@.to_multiset() == orig.take(i).to_multiset(),
            sorted_desc(out@),
        decreases v@.len(),
    {
        let x = v.remove(0);
        proof {
            assert(x == orig[i]);
            assert(v@ =~= orig.skip(i + 1));
        }
        let wx = weight_of(&x);
        let mut p: usize = 0;
        while p < out.len() && weight_of(&out[p]) >= wx
            invariant
                p <= out@.len(),
                wx as int == team_weight(x.team),
                sorted_desc(out@),
                forall|k: int| 0 <= k < p ==> team_weight((#[trigger] out@[k]).team) >= wx as int,
            decreases out@.len() - p,
        {
            p += 1;
        }
        let ghost pre = out@;
        out.insert(p, x);
        proof {
            vstd::seq_lib::to_multiset_insert(pre, p as int, x);
            orig.take(i).to_multiset_ensures();
            assert(orig.take(i + 1) =~= orig.take(i).push(orig[i]));
            assert(orig.take(i + 1).to_multiset() == orig.take(i).to_multiset().insert(orig[i]));
            assert forall|a: int, b: int| 0 <= a < b < out@.len() implies team_weight(
                (#[trigger] out@[a]).team,
            ) >= team_weight((#[trigger] out@[b]).team) by {
                if b < p {
                    assert(out@[a] == pre[a] && out@[b] == pre[b]);
                } else if a > p {
                    assert(out@[a] == pre[a - 1] && out@[b] == pre[b - 1]);
                } else if a == p {
                    assert(out@[b] == pre[b - 1]);
                    assert(p < pre.len() ==> team_weight(pre[p as int].team) < wx as int);
                    assert(team_weight(pre[b - 1].team) <= wx as int);
                } else if b == p {
                    assert(out@[a] == pre[a]);
                } else {
                    assert(a < p && b > p);
                    assert(out@[a] == pre[a] && out@[b] == pre[b - 1]);
                    assert(p < pre.len() ==> team_weight(pre[p as int].team) < wx as int);
                    assert(team_weight(pre[b - 1].team) <= wx as int);
                }
            }
            i = i + 1;
        }
    }
    proof {
        assert(orig.take(orig.len() as int) =~= orig);
    }
    out
}

/// Builds the index page's data: the top-level teams and working groups that
/// carry website data, each with its URL, sorted by descending listing
/// weight.
pub fn index_data(teams: Vec<Team>) -> (r: IndexData)
    ensures
        index_selection(r.teams@, teams@, TeamKind::Team),
        index_selection(r.wgs@, teams@, TeamKind::WorkingGroup),
        sorted_desc(r.teams@),
        sorted_desc(r.wgs@),
{
    let ghost orig = teams@;
    let ghost pt = |t: Team| index_entry(t, TeamKind::Team);
    let ghost pw = |t: Team| index_entry(t, TeamKind::WorkingGroup);
    let ghost tmf = |it: IndexTeam| it.team;
    let mut input = teams;
    let mut sel_teams: Vec<IndexTeam> = Vec::new();
    let mut sel_wgs: Vec<IndexTeam> = Vec::new();
    let ghost mut i: int = 0;
    proof {
        assert(orig.take(0).filter(pt) =~= Seq::<Team>::empty());
        assert(orig.take(0).filter(pw) =~= Seq::<Team>::empty());
    }
    while input.len() > 0
        invariant
            0 <= i <= orig.len(),
            input@ == orig.skip(i),
            pt == (|t: Team| index_entry(t, TeamKind::Team)),
            pw == (|t: Team| index_entry(t, TeamKind::WorkingGroup)),
            tmf == (|it: IndexTeam| it.team),
            sel_teams@.map_values(tmf) == orig.take(i).filter(pt),
            sel_wgs@.map_values(tmf) == orig.take(i).filter(pw),
            forall|k: int|
                0 <= k < sel_teams@.len() ==> index_entry(
                    (#[trigger] sel_teams@[k]).team,
                    TeamKind::Team,
                ) && sel_teams@[k].url@ == team_url(sel_teams@[k].team) && orig.contains(
                    sel_teams@[k].team,
                ),
            forall|k: int|
                0 <= k < sel_wgs@.len() ==> index_entry(
                    (#[trigger] sel_wgs@[k]).team,
                    TeamKind::WorkingGroup,
                ) && sel_wgs@[k].url@ == team_url(sel_wgs@[k].team) && orig.contains(
                    sel_wgs@[k].team,
                ),
            forall|j: int|
                0 <= j < i && index_entry(#[trigger] orig[j], TeamKind::Team) ==> exists|k: int|
                    0 <= k < sel_teams@.len() && (#[trigger] sel_teams@[k]).team == orig[j],
            forall|j: int|
                0 <= j < i && index_entry(#[trigger] orig[j], TeamKind::WorkingGroup) ==> exists|
                    k: int,
                |
                    0 <= k < sel_wgs@.len() && (#[trigger] sel_wgs@[k]).team == orig[j],
        decreases input@.len(),
    {
        let t = input.remove(0);
        proof {
            assert(t == orig[i]);
            assert(input@ =~= orig.skip(i + 1));
            assert(orig.take(i + 1).drop_last() =~= orig.take(i));
            assert(orig.take(i + 1).last() == orig[i]);
            orig.take(i).lemma_filter_push(orig[i], pt);
            orig.take(i).lemma_filter_push(orig[i], pw);
            assert(orig.take(i).push(orig[i]) =~= orig.take(i + 1));
            assert(orig.contains(orig[i]));
        }
        let ghost pre_t = sel_teams@;
        let ghost pre_w = sel_wgs@;
        let eligible = t.website_data.is_some() && t.subteam_of.is_none();
        if eligible {
            let url = match (&t.website_data, t.kind) {
                (Some(w), k) => {
                    let mut u = String::from_str(kind_to_str(k));
                    u.append("/");
                    u.append(w.page.as_str());
                    proof {
                        assert(u@ =~= team_url(t));
                    }
                    u
                },
                (None, _) => String::new(),
            };
            match t.kind {
                TeamKind::Team => {
                    sel_teams.push(IndexTeam { team: t, url });
                },
                TeamKind::WorkingGroup => {
                    sel_wgs.push(IndexTeam { team: t, url });
                },
            }
        }
        proof {
            assert(sel_teams@.map_values(tmf) =~= orig.take(i + 1).filter(pt));
            assert(sel_wgs@.map_values(tmf) =~= orig.take(i + 1).filter(pw));
            assert forall|j: int|
                0 <= j < i + 1 && index_entry(#[trigger] orig[j], TeamKind::Team) implies exists|
                k: int,
            | 0 <= k < sel_teams@.len() && (#[trigger] sel_teams@[k]).team == orig[j] by {
                if j < i {
                    let k = choose|k: int|
                        0 <= k < pre_t.len() && (#[trigger] pre_t[k]).team == orig[j];
                    assert(sel_teams@[k].team == orig[j]);
                } else {
                    assert(sel_teams@[sel_teams@.len() - 1].team == orig[i]);
                }
            }
            assert forall|j: int|
                0 <= j < i + 1 && index_entry(#[trigger] orig[j], TeamKind::WorkingGroup) implies exists|
                k: int,
            | 0 <= k < sel_wgs@.len() && (#[trigger] sel_wgs@[k]).team == orig[j] by {
                if j < i {
                    let k = choose|k: int|
                        0 <= k < pre_w.len() && (#[trigger] pre_w[k]).team == orig[j];
                    assert(sel_wgs@[k].team == orig[j]);
                } else {
                    assert(sel_wgs@[sel_wgs@.len() - 1].team == orig[i]);
                }
            }
            i = i + 1;
        }
    }
    proof {
        assert(orig.take(orig.len() as int) =~= orig);
    }
    let ghost st = sel_teams@;
    let ghost sw = sel_wgs@;
    let out_teams = sort_by_weight(sel_teams);
    let out_wgs = sort_by_weight(sel_wgs);
    proof {
        broadcast use vstd::seq_lib::group_to_multiset_ensures;

        vstd::seq_lib::to_multiset_len(out_teams@);
        vstd::seq_lib::to_multiset_len(st);
        vstd::seq_lib::to_multiset_len(out_wgs@);
        vstd::seq_lib::to_multiset_len(sw);
        lemma_map_values_multiset(out_teams@, st, tmf);
        lemma_map_values_multiset(out_wgs@, sw, tmf);
        assert(st.map_values(|it: IndexTeam| it.team) == orig.filter(pt));
        assert(sw.map_values(|it: IndexTeam| it.team) == orig.filter(pw));
        assert forall|k: int| 0 <= k < out_teams@.len() implies index_entry(
            (#[trigger] out_teams@[k]).team,
            TeamKind::Team,
        ) && out_teams@[k].url@ == team_url(out_teams@[k].team) && orig.contains(
            out_teams@[k].team,
        ) by {
            assert(out_teams@.to_multiset().contains(out_teams@[k]));
            assert(st.to_multiset().contains(out_teams@[k]));
            assert(st.contains(out_teams@[k]));
        }
        assert forall|k: int| 0 <= k < out_wgs@.len() implies index_entry(
            (#[trigger] out_wgs@[k]).team,
            TeamKind::WorkingGroup,
        ) && out_wgs@[k].url@ == team_url(out_wgs@[k].team) && orig.contains(out_wgs@[k].team) by {
            assert(out_wgs@.to_multiset().contains(out_wgs@[k]));
            assert(sw.to_multiset().contains(out_wgs@[k]));
            assert(sw.contains(out_wgs@[k]));
        }
        assert forall|j: int|
            0 <= j < orig.len() && index_entry(#[trigger] orig[j], TeamKind::Team) implies exists|
            k: int,
        | 0 <= k < out_teams@.len() && (#[trigger] out_teams@[k]).team == orig[j] by {
            let k0 = choose|k0: int| 0 <= k0 < st.len() && (#[trigger] st[k0]).team == orig[j];
            assert(st.to_multiset().contains(st[k0]));
            assert(out_teams@.to_multiset().contains(st[k0]));
            assert(out_teams@.contains(st[k0]));
            let k = choose|k: int| 0 <= k < out_teams@.len() && out_teams@[k] == st[k0];
            assert(out_teams@[k].team == orig[j]);
        }
        assert forall|j: int|
            0 <= j < orig.len() && index_entry(#[trigger] orig[j], TeamKind::WorkingGroup) implies exists|
            k: int,
        | 0 <= k < out_wgs@.len() && (#[trigger] out_wgs@[k]).team == orig[j] by {
            let k0 = choose|k0: int| 0 <= k0 < sw.len() && (#[trigger] sw[k0]).team == orig[j];
            assert(sw.to_multiset().contains(sw[k0]));
            assert(out_wgs@.to_multiset().contains(sw[k0]));
            assert(out_wgs@.contains(sw[k0]));
            let k = choose|k: int| 0 <= k < out_wgs@.len() && out_wgs@[k] == sw[k0];
            assert(out_wgs@[k].team == orig[j]);
        }
    }
    IndexData { teams: out_teams, wgs: out_wgs }
}

/// A team page request names no known team: the not-found condition.
#[derive(PartialEq, Eq, Structural, Clone, Copy, Debug)]
pub struct TeamNotFound;

impl TeamNotFound {
    /// The diagnostic text of the not-found condition.
    pub fn message(&self) -> (r: String)
        ensures
            r@ == "team not found"@,
    {
        String::from_str("team not found")
    }
}

/// A team matches a page request: it has website data, its page is the
/// requested name, and its kind is listed under the requested section.
pub open spec fn page_match(t: Team, section: Seq<char>, name: Seq<char>) -> bool {
    t.website_data is Some && team_page(t) == name && kind_str(t.kind) == section
}

/// A team belongs under a main team: it has website data and names the main
/// team as its parent.
pub open spec fn sub_match(t: Team, main_name: Seq<char>) -> bool {
    t.website_data is Some && (t.subteam_of matches Some(s) && s@ == main_name)
}

/// The data of one team's page.
#[derive(Debug)]
pub struct PageData {
    pub team: Team,
    pub subteams: Vec<Team>,
    pub wgs: Vec<Team>,
}

fn matches_page(t: &Team, section: &str, team_name: &str) -> (r: bool)
    ensures
        r == page_match(*t, section@, team_name@),
{
    match &t.website_data {
        Some(w) => str_eq(w.page.as_str(), team_name) && str_eq(kind_to_str(t.kind), section),
        None => false,
    }
}

/// Builds one team's page data: the first team whose page and section match,
/// with its subteams and working groups in roster order. A request naming no
/// team is the not-found condition.
pub fn page_data(teams: Vec<Team>, section: &str, team_name: &str) -> (r: Result<
    PageData,
    TeamNotFound,
>)
    ensures
        match r {
            Ok(pd) => exists|j: int|
                0 <= j < teams@.len() && page_match(#[trigger] teams@[j], section@, team_name@)
                    && pd.team == teams@[j] && (forall|k: int|
                    0 <= k < j ==> !page_match(#[trigger] teams@[k], section@, team_name@)) && pd.subteams@
                    == teams@.filter(
                    |t: Team| sub_match(t, teams@[j].name@) && t.kind == TeamKind::Team,
                ) && pd.wgs@ == teams@.filter(
                    |t: Team| sub_match(t, teams@[j].name@) && t.kind == TeamKind::WorkingGroup,
                ),
            Err(e) => forall|k: int|
                0 <= k < teams@.len() ==> !page_match(#[trigger] teams@[k], section@, team_name@),
        },
{
    let mut idx: usize = 0;
    let mut found = false;
    while idx < teams.len() && !found
        invariant
            idx <= teams@.len(),
            !found ==> forall|k: int|
                0 <= k < idx ==> !page_match(#[trigger] teams@[k], section@, team_name@),
            found ==> idx < teams@.len() && page_match(teams@[idx as int], section@, team_name@)
                && forall|k: int|
                0 <= k < idx ==> !page_match(#[trigger] teams@[k], section@, team_name@),
        decreases teams@.len() - idx + (if found { 0int } else { 1int }),
    {
        if matches_page(&teams[idx], section, team_name) {
            found = true;
        } else {
            idx += 1;
        }
    }
    if !found {
        return Err(TeamNotFound);
    }
    let main_team = teams[idx].clone();
    let ghost j = idx as int;
    let ghost mn = main_team.name@;
    let ghost orig = teams@;
    let ghost ps = |t: Team| sub_match(t, mn) && t.kind == TeamKind::Team;
    let ghost pw = |t: Team| sub_match(t, mn) && t.kind == TeamKind::WorkingGroup;
    let mut input = teams;
    let mut subteams: Vec<Team> = Vec::new();
    let mut wgs: Vec<Team> = Vec::new();
    let ghost mut i: int = 0;
    proof {
        assert(orig.take(0).filter(ps) =~= Seq::<Team>::empty());
        assert(orig.take(0).filter(pw) =~= Seq::<Team>::empty());
    }
    while input.len() > 0
        invariant
            0 <= i <= orig.len(),
            input@ == orig.skip(i),
            mn == main_team.name@,
            ps == (|t: Team| sub_match(t, mn) && t.kind == TeamKind::Team),
            pw == (|t: Team| sub_match(t, mn) && t.kind == TeamKind::WorkingGroup),
            subteams@ == orig.take(i).filter(ps),
            wgs@ == orig.take(i).filter(pw),
        decreases input@.len(),
    {
        let t = input.remove(0);
        proof {
            assert(t == orig[i]);
            assert(input@ =~= orig.skip(i + 1));
            orig.take(i).lemma_filter_push(orig[i], ps);
            orig.take(i).lemma_filter_push(orig[i], pw);
            assert(orig.take(i).push(orig[i]) =~= orig.take(i + 1));
        }
        let is_sub = t.website_data.is_some() && (match &t.subteam_of {
            Some(s) => str_eq(s.as_str(), main_team.name.as_str()),
            None => false,
        });
        if is_sub {
            match t.kind {
                TeamKind::Team => subteams.push(t),
                TeamKind::WorkingGroup => wgs.push(t),
            }
        }
        proof {
            i = i + 1;
        }
    }
    proof {
        assert(orig.take(orig.len() as int) =~= orig);
    }
    Ok(PageData { team: main_team, subteams, wgs })
}

} // verus!
