use vstd::prelude::*;
use vstd::string::StringExecFns;
use rand::seq::SliceRandom;

verus! {

/// Someone taking part in the draw, with the names they must not draw.
#[derive(Clone, Debug, Default)]
pub struct Person {
    pub name: String,
    pub phone_number: String,
    pub exclude: Vec<String>,
}

/// Whether `list` holds the name `name`.
pub open spec fn names_contain(list: Seq<String>, name: Seq<char>) -> bool {
    exists|k: int| 0 <= k < list.len() && #[trigger] list[k]@ == name
}

/// Whether someone in `people` is called `name`.
pub open spec fn is_name(people: Seq<Person>, name: Seq<char>) -> bool {
    exists|i: int| 0 <= i < people.len() && #[trigger] people[i].name@ == name
}

/// Whether someone before position `n` of `people` is called `name`.
pub open spec fn named_before(people: Seq<Person>, name: Seq<char>, n: int) -> bool {
    exists|i: int| 0 <= i < n && i < people.len() && #[trigger] people[i].name@ == name
}

/// Whether `i` is the last person in `people` called `name`.
pub open spec fn last_named(people: Seq<Person>, name: Seq<char>, i: int) -> bool {
    &&& 0 <= i < people.len()
    &&& people[i].name@ == name
    &&& forall|j: int| i < j < people.len() ==> #[trigger] people[j].name@ != name
}

/// Whether `giver` must not draw `receiver`: the last person called `giver`
/// excludes that name.
pub open spec fn excludes(people: Seq<Person>, giver: Seq<char>, receiver: Seq<char>) -> bool {
    exists|i: int| last_named(people, giver, i) && names_contain(people[i].exclude@, receiver)
}

/// `gs[i]` draws `bs[i]`: every name gives exactly once, nobody is drawn
/// twice, nobody draws themselves or a name they exclude.
pub open spec fn valid_matching(people: Seq<Person>, gs: Seq<Seq<char>>, bs: Seq<Seq<char>>) -> bool {
    &&& gs.len() == bs.len()
    &&& gs.no_duplicates()
    &&& bs.no_duplicates()
    &&& forall|s: Seq<char>| is_name(people, s) <==> gs.contains(s)
    &&& forall|i: int|
        0 <= i < bs.len() ==> {
            &&& is_name(people, #[trigger] bs[i])
            &&& bs[i] != gs[i]
            &&& !excludes(people, gs[i], bs[i])
        }
}

/// The line that announces that `g` draws `b`.
pub open spec fn match_line(g: Seq<char>, b: Seq<char>) -> Seq<char> {
    g + seq![':', ' '] + b
}

/// The lines announce a valid matching of `people`.
pub open spec fn announces_matching(people: Seq<Person>, lines: Seq<String>) -> bool {
    exists|gs: Seq<Seq<char>>, bs: Seq<Seq<char>>|
        valid_matching(people, gs, bs) && lines.len() == gs.len() && forall|i: int|
            0 <= i < lines.len() ==> #[trigger] lines[i]@ == match_line(gs[i], bs[i])
}

/// Relies on `rand::seq::SliceRandom::shuffle`: it permutes the items in place.
#[verifier::external_body]
fn shuffle(v: &mut Vec<usize>)
    ensures
        final(v)@.to_multiset() == old(v)@.to_multiset(),
{
    v.shuffle(&mut rand::thread_rng());
}

/// Relies on `rand::seq::SliceRandom::choose`: on a non-empty slice it returns
/// one of its items.
#[verifier::external_body]
fn choose_one(v: &Vec<usize>) -> (r: usize)
    requires
        v@.len() > 0,
    ensures
        v@.contains(r),
{
    *v.choose(&mut rand::thread_rng()).unwrap()
}

/// Whether `list` holds the name `name`.
pub fn contains_name(list: &Vec<String>, name: &String) -> (r: bool)
    ensures
        r == names_contain(list@, name@),
{
    let mut k: usize = 0;
    while k < list.len()
        invariant
            k <= list@.len(),
            forall|m: int| 0 <= m < k ==> list@[m]@ != name@,
        decreases list@.len() - k,
    {
        if list[k] == *name {
            return true;
        }
        k = k + 1;
    }
    false
}

impl Person {
    /// The excluded names, separated by `, `.
    pub fn display_excludes(&self) -> (r: String)
        ensures
            r@ == joined_names(self.exclude@),
    {
        let mut s = String::new();
        let mut k: usize = 0;
        while k < self.exclude.len()
            invariant
                k <= self.exclude@.len(),
                s@ == joined_names(self.exclude@.take(k as int)),
            decreases self.exclude@.len() - k,
        {
            if k > 0 {
                s.append(", ");
            }
            s.append(self.exclude[k].as_str());
            proof {
                reveal_strlit(", ");
                let t = self.exclude@.take(k + 1);
                assert(t.drop_last() =~= self.exclude@.take(k as int));
                assert(t.last() == self.exclude@[k as int]);
                assert(", "@ == seq![',', ' ']);
            }
            k = k + 1;
        }
        assert(self.exclude@.take(k as int) =~= self.exclude@);
        s
    }
}

/// Names separated by `, `.
pub open spec fn joined_names(names: Seq<String>) -> Seq<char>
    decreases names.len(),
{
    if names.len() == 0 {
        Seq::empty()
    } else if names.len() == 1 {
        names[0]@
    } else {
        joined_names(names.drop_last()) + seq![',', ' '] + names.last()@
    }
}

/// Where a person stands while someone edits their exclusions.
#[derive(Debug, Clone, Copy, PartialEq, Eq, Structural)]
pub enum Status {
    /// Nobody is editing.
    Inactive,
    /// This person is editing.
    WeAreActive,
    /// Someone else is editing and may still draw this person.
    SomeoneElseActiveIncluded,
    /// Someone else is editing and excludes this person.
    SomeoneElseActiveExcluded,
}

/// The status of person `person_idx` while `excluding` (if any) edits.
pub fn disliking_status(excluding: &Option<usize>, people: &[Person], person_idx: usize) -> (r: Status)
    requires
        person_idx < people@.len(),
        excluding is Some ==> excluding->Some_0 < people@.len(),
    ensures
        r == match *excluding {
            None => Status::Inactive,
            Some(a) => if a == person_idx {
                Status::WeAreActive
            } else if names_contain(people@[a as int].exclude@, people@[person_idx as int].name@) {
                Status::SomeoneElseActiveExcluded
            } else {
                Status::SomeoneElseActiveIncluded
            },
        },
{
    match excluding {
        Some(active_idx) => {
            if *active_idx == person_idx {
                Status::WeAreActive
            } else if contains_name(&people[*active_idx].exclude, &people[person_idx].name) {
                Status::SomeoneElseActiveExcluded
            } else {
                Status::SomeoneElseActiveIncluded
            }
        },
        None => Status::Inactive,
    }
}

/// The indices `0..k`, in order.
pub open spec fn indices(k: nat) -> Seq<usize> {
    Seq::new(k, |i: int| i as usize)
}

proof fn lemma_last_named_unique(people: Seq<Person>, name: Seq<char>, i: int, j: int)
    requires
        last_named(people, name, i),
        last_named(people, name, j),
    ensures
        i == j,
{
    if i < j {
        assert(people[j].name@ == name);
    } else if j < i {
        assert(people[i].name@ == name);
    }
}

/// A reordering of `0..k` holds each index once.
proof fn lemma_reordered_indices(s: Seq<usize>, k: nat)
    requires
        k <= usize::MAX,
        s.to_multiset() == indices(k).to_multiset(),
    ensures
        s.len() == k,
        s.no_duplicates(),
        forall|x: usize| s.contains(x) <==> x < k,
{
    broadcast use vstd::seq_lib::group_to_multiset_ensures;

    let idx = indices(k);
    assert forall|i: int, j: int| 0 <= i < idx.len() && 0 <= j < idx.len() && i != j implies idx[i]
        != idx[j] by {
        assert(idx[i] == i as usize && idx[j] == j as usize);
    }
    assert(idx.no_duplicates());
    idx.lemma_multiset_has_no_duplicates();
    assert(s.len() == s.to_multiset().len());
    assert(idx.len() == idx.to_multiset().len());
    s.lemma_multiset_has_no_duplicates_conv();
    assert forall|x: usize| s.contains(x) <==> x < k by {
        assert(s.contains(x) <==> s.to_multiset().count(x) > 0);
        assert(idx.contains(x) <==> idx.to_multiset().count(x) > 0);
        if x < k {
            assert(idx[x as int] == x);
        }
        if idx.contains(x) {
            let i = choose|i: int| 0 <= i < idx.len() && idx[i] == x;
            assert(idx[i] == i as usize);
        }
    }
}

fn index_list(k: usize) -> (r: Vec<usize>)
    ensures
        r@ == indices(k as nat),
{
    let mut v: Vec<usize> = Vec::new();
    let mut i: usize = 0;
    while i < k
        invariant
            i <= k,
            v@ == indices(i as nat),
        decreases k - i,
    {
        v.push(i);
        i = i + 1;
        assert(v@ =~= indices(i as nat));
    }
    v
}

fn find_name(names: &Vec<String>, name: &String) -> (r: Option<usize>)
    ensures
        r is Some ==> r->Some_0 < names@.len() && names@[r->Some_0 as int]@ == name@,
        r is None ==> forall|a: int| 0 <= a < names@.len() ==> names@[a]@ != name@,
{
    let mut a: usize = 0;
    while a < names.len()
        invariant
            a <= names@.len(),
            forall|b: int| 0 <= b < a ==> names@[b]@ != name@,
        decreases names@.len() - a,
    {
        if names[a] == *name {
            return Some(a);
        }
        a = a + 1;
    }
    None
}

/// The names of `people`, each once, with the index of the last person who
/// bears each.
fn unique_names(people: &[Person]) -> (r: (Vec<String>, Vec<usize>))
    ensures
        r.0@.len() == r.1@.len(),
        forall|a: int, b: int| 0 <= a < r.0@.len() && 0 <= b < r.0@.len() && a != b ==> r.0@[a]@ != r.0@[b]@,
        forall|a: int| 0 <= a < r.1@.len() ==> last_named(people@, r.0@[a]@, r.1@[a] as int),
        forall|s: Seq<char>| #[trigger] is_name(people@, s) <==> names_contain(r.0@, s),
{
    let mut names: Vec<String> = Vec::new();
    let mut owner: Vec<usize> = Vec::new();
    let mut i: usize = 0;
    while i < people.len()
        invariant
            i <= people@.len(),
            names@.len() == owner@.len(),
            forall|a: int, b: int| 0 <= a < names@.len() && 0 <= b < names@.len() && a != b ==> names@[a]@ != names@[b]@,
            forall|a: int| 0 <= a < owner@.len() ==> {
                &&& owner@[a] < i
                &&& people@[owner@[a] as int].name@ == names@[a]@
                &&& forall|j: int| owner@[a] < j < i ==> #[trigger] people@[j].name@ != names@[a]@
            },
            forall|s: Seq<char>| #[trigger] named_before(people@, s, i as int) <==> names_contain(names@, s),
        decreases people@.len() - i,
    {
        let ghost before_names = names@;
        let ghost before_owner = owner@;
        match find_name(&names, &people[i].name) {
            Some(a) => {
                owner.set(a, i);
            },
            None => {
                names.push(people[i].name.clone());
                owner.push(i);
            },
        }
        proof {
            assert forall|s: Seq<char>| #[trigger] named_before(people@, s, i + 1) <==> names_contain(names@, s) by {
                if named_before(people@, s, i + 1) {
                    let j = choose|j: int| 0 <= j < i + 1 && j < people@.len() && #[trigger] people@[j].name@ == s;
                    if j < i {
                        assert(named_before(people@, s, i as int));
                        let a = choose|a: int| 0 <= a < before_names.len() && #[trigger] before_names[a]@ == s;
                        assert(names@[a]@ == s);
                    } else {
                        if names@.len() > before_names.len() {
                            assert(names@[before_names.len() as int]@ == s);
                        }
                    }
                }
                if names_contain(names@, s) {
                    let a = choose|a: int| 0 <= a < names@.len() && #[trigger] names@[a]@ == s;
                    if a < before_names.len() {
                        assert(before_names[a]@ == s);
                        assert(names_contain(before_names, s));
                    } else {
                        assert(people@[i as int].name@ == s);
                    }
                }
            }
        }
        i = i + 1;
    }
    assert forall|s: Seq<char>| #[trigger] is_name(people@, s) <==> names_contain(names@, s) by {
        assert(is_name(people@, s) <==> named_before(people@, s, people@.len() as int));
    }
    (names, owner)
}

fn without(v: &Vec<usize>, b: usize) -> (r: Vec<usize>)
    requires
        v@.no_duplicates(),
    ensures
        r@.no_duplicates(),
        forall|x: usize| r@.contains(x) <==> (v@.contains(x) && x != b),
{
    let mut r: Vec<usize> = Vec::new();
    let mut m: usize = 0;
    while m < v.len()
        invariant
            m <= v@.len(),
            v@.no_duplicates(),
            r@.no_duplicates(),
            forall|x: usize| r@.contains(x) <==> (v@.take(m as int).contains(x) && x != b),
        decreases v@.len() - m,
    {
        let x = v[m];
        let ghost old_r = r@;
        assert(v@.take(m + 1) =~= v@.take(m as int).push(x));
        assert(!v@.take(m as int).contains(x)) by {
            if v@.take(m as int).contains(x) {
                let i = choose|i: int| 0 <= i < m && v@.take(m as int)[i] == x;
                assert(v@[i] == v@[m as int]);
            }
        }
        if x != b {
            r.push(x);
        }
        proof {
            assert forall|y: usize| r@.contains(y) <==> (v@.take(m + 1).contains(y) && y != b) by {
                let t1 = v@.take(m + 1);
                if t1.contains(y) && y != b {
                    let i = choose|i: int| 0 <= i < t1.len() && t1[i] == y;
                    if i < m {
                        assert(v@.take(m as int)[i] == y);
                        assert(old_r.contains(y));
                        let j = choose|j: int| 0 <= j < old_r.len() && old_r[j] == y;
                        assert(r@[j] == y);
                    } else {
                        assert(r@[r@.len() - 1] == y);
                    }
                }
                if r@.contains(y) {
                    let j = choose|j: int| 0 <= j < r@.len() && r@[j] == y;
                    if j < old_r.len() {
                        assert(old_r[j] == y);
                        assert(old_r.contains(y));
                        let i = choose|i: int| 0 <= i < m && v@.take(m as int)[i] == y;
                        assert(t1[i] == y);
                    } else {
                        assert(t1[m as int] == y);
                    }
                }
            }
            assert forall|i: int, j: int| 0 <= i < r@.len() && 0 <= j < r@.len() && i != j implies r@[i]
                != r@[j] by {
                if i < old_r.len() && j < old_r.len() {
                    assert(old_r[i] != old_r[j]);
                } else if i < old_r.len() {
                    assert(old_r.contains(old_r[i]));
                } else if j < old_r.len() {
                    assert(old_r.contains(old_r[j]));
                }
            }
        }
        m = m + 1;
    }
    assert(v@.take(v@.len() as int) =~= v@);
    r
}

/// Draws who gives to whom: each name draws one other name that it does not
/// exclude, and nobody is drawn twice. The draw may fail for lack of a
/// candidate.
pub fn make_matches(people: &[Person]) -> (r: Result<Vec<String>, String>)
    ensures
        match r {
            Ok(lines) => announces_matching(people@, lines@),
            Err(e) => exists|s: Seq<char>|
                is_name(people@, s) && e@ == "Unable to find a match for "@ + s,
        },
{
    broadcast use vstd::seq_lib::group_to_multiset_ensures;

    let (names, owner) = unique_names(people);
    let k = names.len();
    let mut starters = index_list(k);
    shuffle(&mut starters);
    let mut available = index_list(k);
    shuffle(&mut available);
    proof {
        lemma_reordered_indices(starters@, k as nat);
        lemma_reordered_indices(available@, k as nat);
    }
    let mut lines: Vec<String> = Vec::new();
    let ghost mut gs: Seq<Seq<char>> = Seq::empty();
    let ghost mut bs: Seq<Seq<char>> = Seq::empty();
    let ghost mut picked: Seq<usize> = Seq::empty();
    let mut t: usize = 0;
    while t < k
        invariant
            t <= k,
            k == names@.len(),
            k == owner@.len(),
            k == starters@.len(),
            forall|a: int, b: int| 0 <= a < k && 0 <= b < k && a != b ==> names@[a]@ != names@[b]@,
            forall|a: int| 0 <= a < k ==> last_named(people@, names@[a]@, owner@[a] as int),
            forall|s: Seq<char>| #[trigger] is_name(people@, s) <==> names_contain(names@, s),
            starters@.no_duplicates(),
            forall|x: usize| starters@.contains(x) <==> x < k,
            available@.no_duplicates(),
            forall|x: usize| #[trigger] available@.contains(x) ==> x < k && !picked.contains(x),
            picked.no_duplicates(),
            picked.len() == t,
            gs.len() == t,
            bs.len() == t,
            lines@.len() == t,
            forall|i: int| 0 <= i < t ==> #[trigger] picked[i] < k,
            forall|i: int| 0 <= i < t ==> #[trigger] gs[i] == names@[starters@[i] as int]@,
            forall|i: int| 0 <= i < t ==> #[trigger] bs[i] == names@[picked[i] as int]@,
            forall|i: int| 0 <= i < t ==> #[trigger] lines@[i]@ == match_line(gs[i], bs[i]),
            forall|i: int| 0 <= i < t ==> #[trigger] picked[i] != starters@[i],
            forall|i: int|
                0 <= i < t ==> !names_contain(
                    people@[owner@[starters@[i] as int] as int].exclude@,
                    #[trigger] bs[i],
                ),
        decreases k - t,
    {
        let s = starters[t];
        assert(starters@.contains(s));
        let ex = &people[owner[s]].exclude;
        assert(forall|x: usize| #[trigger] available@.contains(x) ==> x < k && !picked.contains(x));
        let mut cands: Vec<usize> = Vec::new();
        let mut m: usize = 0;
        while m < available.len()
            invariant
                m <= available@.len(),
                s < k,
                k == names@.len(),
                forall|x: usize| #[trigger] available@.contains(x) ==> x < k && !picked.contains(x),
                forall|c: usize| cands@.contains(c) ==> {
                    &&& available@.contains(c)
                    &&& c != s
                    &&& !names_contain(ex@, names@[c as int]@)
                },
            decreases available@.len() - m,
        {
            let x = available[m];
            assert(available@.contains(x));
            if x != s && !contains_name(ex, &names[x]) {
                cands.push(x);
            }
            m = m + 1;
        }
        if cands.len() == 0 {
            let mut msg = "Unable to find a match for ".to_string();
            msg.append(names[s].as_str());
            proof {
                let o = owner@[s as int] as int;
                assert(people@[o].name@ == names@[s as int]@);
                assert(is_name(people@, names@[s as int]@));
            }
            return Err(msg);
        }
        let b = choose_one(&cands);
        assert(available@.contains(b));
        let ghost old_available = available@;
        available = without(&available, b);
        let mut line = names[s].clone();
        line.append(": ");
        line.append(names[b].as_str());
        proof {
            reveal_strlit(": ");
            assert(": "@ == seq![':', ' ']);
        }
        let ghost old_lines = lines@;
        lines.push(line);
        proof {
            let old_picked = picked;
            let old_gs = gs;
            let old_bs = bs;
            gs = gs.push(names@[s as int]@);
            bs = bs.push(names@[b as int]@);
            picked = picked.push(b);
            assert(cands@.contains(b));
            assert(b != s);
            assert(ex@ == people@[owner@[s as int] as int].exclude@);
            assert(!names_contain(people@[owner@[s as int] as int].exclude@, bs[t as int]));
            assert(lines@[t as int]@ == match_line(gs[t as int], bs[t as int]));
            assert forall|i: int| 0 <= i < t + 1 implies {
                &&& picked[i] < k
                &&& #[trigger] gs[i] == names@[starters@[i] as int]@
                &&& bs[i] == names@[picked[i] as int]@
                &&& lines@[i]@ == match_line(gs[i], bs[i])
                &&& picked[i] != starters@[i]
                &&& !names_contain(people@[owner@[starters@[i] as int] as int].exclude@, bs[i])
            } by {
                if i < t {
                    assert(old_gs[i] == old_gs[i]);
                    assert(gs[i] == old_gs[i]);
                    assert(bs[i] == old_bs[i]);
                    assert(picked[i] == old_picked[i]);
                    assert(lines@[i] == old_lines[i]);
                }
            }
            assert forall|x: usize| picked.contains(x) implies old_picked.contains(x) || x == b by {
                if picked.contains(x) {
                    let i = choose|i: int| 0 <= i < picked.len() && picked[i] == x;
                    if i < old_picked.len() {
                        assert(old_picked[i] == x);
                    }
                }
            }
            assert forall|i: int, j: int| 0 <= i < picked.len() && 0 <= j < picked.len() && i != j implies picked[i]
                != picked[j] by {
                if i < old_picked.len() && j < old_picked.len() {
                    assert(old_picked[i] != old_picked[j]);
                } else if i < old_picked.len() {
                    assert(old_picked.contains(old_picked[i]));
                } else if j < old_picked.len() {
                    assert(old_picked.contains(old_picked[j]));
                }
            }
        }
        t = t + 1;
    }
    proof {
        assert forall|i: int, j: int| 0 <= i < gs.len() && 0 <= j < gs.len() && i != j implies gs[i] != gs[j] by {
            assert(starters@[i] != starters@[j]);
            assert(starters@.contains(starters@[i]));
            assert(starters@.contains(starters@[j]));
        }
        assert forall|i: int, j: int| 0 <= i < bs.len() && 0 <= j < bs.len() && i != j implies bs[i] != bs[j] by {
            assert(gs[i] == gs[i] && gs[j] == gs[j]);
            assert(picked[i] != picked[j]);
            assert(names@[picked[i] as int]@ != names@[picked[j] as int]@);
        }
        assert forall|s: Seq<char>| is_name(people@, s) <==> gs.contains(s) by {
            if is_name(people@, s) {
                let a = choose|a: int| 0 <= a < names@.len() && #[trigger] names@[a]@ == s;
                assert(starters@.contains(a as usize));
                let i = choose|i: int| 0 <= i < starters@.len() && starters@[i] == a as usize;
                assert(gs[i] == s);
            }
            if gs.contains(s) {
                let i = choose|i: int| 0 <= i < gs.len() && gs[i] == s;
                assert(starters@.contains(starters@[i]));
                let a = starters@[i] as int;
                assert(people@[owner@[a] as int].name@ == s);
            }
        }
        assert forall|i: int| 0 <= i < bs.len() implies {
            &&& is_name(people@, #[trigger] bs[i])
            &&& bs[i] != gs[i]
            &&& !excludes(people@, gs[i], bs[i])
        } by {
            assert(gs[i] == gs[i]);
            let b = picked[i] as int;
            assert(last_named(people@, names@[b]@, owner@[b] as int));
            assert(people@[owner@[b] as int].name@ == bs[i]);
            assert(starters@.contains(starters@[i]));
            let a = starters@[i] as int;
            if excludes(people@, gs[i], bs[i]) {
                let j = choose|j: int| last_named(people@, gs[i], j) && names_contain(people@[j].exclude@, bs[i]);
                lemma_last_named_unique(people@, gs[i], j, owner@[a] as int);
            }
        }
        assert(valid_matching(people@, gs, bs));
    }
    Ok(lines)
}

/// Tries the draw up to ten times and keeps the first that succeeds; no
/// lines when all ten fail.
pub fn do_make_matches(people: &[Person]) -> (r: Vec<String>)
    ensures
        r@.len() == 0 || announces_matching(people@, r@),
{
    let mut attempt: usize = 0;
    while attempt < 10
        invariant
            attempt <= 10,
        decreases 10 - attempt,
    {
        match make_matches(people) {
            Ok(done) => {
                return done;
            },
            Err(_) => {},
        }
        attempt = attempt + 1;
    }
    Vec::new()
}

} // verus!
