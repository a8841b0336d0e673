//! Orbit maps: a forest of named objects, each directly orbiting one
//! center of mass, rooted at the universal center "COM". Counting orbits
//! weighs every object by its distance from the root; transfers move
//! between the paths of two objects.

use vstd::prelude::*;

use vstd::string::StrSliceExecFns;

verus! {

broadcast use vstd::std_specs::vec::axiom_vec_index_decreases;

/// One named center of mass and the objects in direct orbit around it,
/// each with its own subtree.
#[derive(Debug)]
pub struct Orbit {
    center_of_mass_name: String,
    orbiting_objects: Vec<Orbit>,
}

/// The total orbit count of a subtree whose root sits `chain` steps below
/// the universal center: each child contributes `chain` plus its own
/// subtree's count one step further down.
pub closed spec fn spec_orbit_count(o: Orbit, chain: nat) -> nat
    decreases o, 0int,
{
    spec_orbit_count_list(o.orbiting_objects, chain, 0)
}

pub closed spec fn spec_orbit_count_list(cs: Vec<Orbit>, chain: nat, i: int) -> nat
    decreases cs, cs@.len() - i,
    when 0 <= i <= cs@.len()
{
    if i < cs@.len() {
        chain + spec_orbit_count(cs@[i], chain + 1) + spec_orbit_count_list(cs, chain, i + 1)
    } else {
        0
    }
}

/// The height of a subtree: a lone object has height one.
pub closed spec fn spec_height(o: Orbit) -> nat
    decreases o, 0int,
{
    1 + spec_height_list(o.orbiting_objects, 0)
}

pub closed spec fn spec_height_list(cs: Vec<Orbit>, i: int) -> nat
    decreases cs, cs@.len() - i,
    when 0 <= i <= cs@.len()
{
    if i < cs@.len() {
        let h = spec_height(cs@[i]);
        let rest = spec_height_list(cs, i + 1);
        if h > rest {
            h
        } else {
            rest
        }
    } else {
        0
    }
}

proof fn lemma_orbit_count_list_step(cs: Vec<Orbit>, chain: nat, i: int)
    requires
        0 <= i < cs@.len(),
    ensures
        spec_orbit_count_list(cs, chain, i) == chain + spec_orbit_count(cs@[i], chain + 1)
            + spec_orbit_count_list(cs, chain, i + 1),
        spec_height_list(cs, i) >= spec_height(cs@[i]),
        spec_height_list(cs, i) >= spec_height_list(cs, i + 1),
{
}

/// Some record in the directory carries this center name.
pub open spec fn has_name(dir: Seq<Orbit>, name: Seq<char>) -> bool {
    exists|j: int| 0 <= j < dir.len() && (#[trigger] dir[j].spec_name()) == name
}

/// What the depth-first search yields from a subtree, having already
/// walked `path`: the path down to the center that `target` directly
/// orbits, or nothing if `target` orbits nothing in the subtree. Children
/// are searched in order and the first hit wins.
pub closed spec fn spec_find(o: Orbit, target: Seq<char>, path: Seq<Seq<char>>) -> Option<
    Seq<Seq<char>>,
>
    decreases o, 0int,
{
    spec_find_list(o.orbiting_objects, target, path.push(o.center_of_mass_name@), 0)
}

pub closed spec fn spec_find_list(
    cs: Vec<Orbit>,
    target: Seq<char>,
    path: Seq<Seq<char>>,
    i: int,
) -> Option<Seq<Seq<char>>>
    decreases cs, cs@.len() - i,
    when 0 <= i <= cs@.len()
{
    if i < cs@.len() {
        if cs@[i].spec_name() == target {
            Some(path)
        } else {
            match spec_find(cs@[i], target, path) {
                Some(p) => Some(p),
                None => spec_find_list(cs, target, path, i + 1),
            }
        }
    } else {
        None
    }
}

/// The length of the longest shared prefix of two name paths.
pub open spec fn common_len(a: Seq<Seq<char>>, b: Seq<Seq<char>>, i: int) -> int
    decreases a.len() - i,
    when 0 <= i <= a.len()
{
    if i < a.len() && i < b.len() && a[i] == b[i] {
        common_len(a, b, i + 1)
    } else {
        i
    }
}

/// The names of a path, as text.
pub open spec fn names_of(v: Seq<String>) -> Seq<Seq<char>> {
    v.map_values(|s: String| s@)
}

impl Orbit {
    pub closed spec fn spec_name(&self) -> Seq<char> {
        self.center_of_mass_name@
    }

    pub closed spec fn spec_children(&self) -> Seq<Orbit> {
        self.orbiting_objects@
    }

    /// A center of mass with nothing in orbit yet.
    pub fn new(name: String) -> (r: Orbit)
        ensures
            r.spec_name() == name@,
            r.spec_children().len() == 0,
    {
        Orbit { center_of_mass_name: name, orbiting_objects: Vec::new() }
    }

    /// The total orbit count of this subtree, its root `chain_length`
    /// steps below the universal center; the count and the chain depth
    /// must fit the machine word.
    pub fn orbit_count(&self, chain_length: u64) -> (r: u64)
        requires
            spec_orbit_count(*self, chain_length as nat) <= u64::MAX,
            chain_length as nat + spec_height(*self) <= u64::MAX,
        ensures
            r as nat == spec_orbit_count(*self, chain_length as nat),
        decreases *self,
    {
        let mut sum: u64 = 0;
        let mut i: usize = 0;
        while i < self.orbiting_objects.len()
            invariant
                i <= self.orbiting_objects@.len(),
                chain_length as nat + spec_height(*self) <= u64::MAX,
                spec_height(*self) >= 1 + spec_height_list(self.orbiting_objects, i as int),
                spec_orbit_count_list(self.orbiting_objects, chain_length as nat, 0) <= u64::MAX,
                spec_orbit_count_list(self.orbiting_objects, chain_length as nat, 0) == sum
                    + spec_orbit_count_list(self.orbiting_objects, chain_length as nat, i as int),
            decreases self.orbiting_objects@.len() - i,
        {
            proof {
                lemma_orbit_count_list_step(self.orbiting_objects, chain_length as nat, i as int);
            }
            let c = self.orbiting_objects[i].orbit_count(chain_length + 1);
            sum = sum + chain_length + c;
            i = i + 1;
        }
        sum
    }

    /// Puts one more object (and its subtree) in direct orbit.
    pub fn add_orbiting_object(&mut self, orbiting_object: Orbit)
        ensures
            final(self).spec_name() == old(self).spec_name(),
            final(self).spec_children() == old(self).spec_children().push(orbiting_object),
    {
        self.orbiting_objects.push(orbiting_object);
    }

    /// Adopts the direct orbiters of another record of the same center.
    pub fn combine(&mut self, other: Orbit)
        requires
            old(self).spec_name() == other.spec_name(),
        ensures
            final(self).spec_name() == old(self).spec_name(),
            final(self).spec_children() == old(self).spec_children() + other.spec_children(),
    {
        let mut incoming = other.orbiting_objects;
        self.orbiting_objects.append(&mut incoming);
    }

    /// Rebuilds the subtree below every direct orbiter by pulling each
    /// orbiter's own record out of the directory, recursively; a name with
    /// no record is a leaf. The directory only shrinks.
    pub fn extract_orbiting_object_details(&mut self, orbit_directory: &mut Vec<Orbit>)
        ensures
            final(self).spec_name() == old(self).spec_name(),
            final(orbit_directory)@.len() <= old(orbit_directory)@.len(),
        decreases old(orbit_directory)@.len(),
    {
        let ghost entry_len = orbit_directory@.len();
        let mut i: usize = 0;
        while i < self.orbiting_objects.len()
            invariant
                entry_len == old(orbit_directory)@.len(),
                self.spec_name() == old(self).spec_name(),
                orbit_directory@.len() <= entry_len,
            decreases self.orbiting_objects@.len() - i,
        {
            let name = self.orbiting_objects[i].center_of_mass_name.clone();
            match directory_remove(orbit_directory, &name) {
                None => {
                    // A leaf: nothing below it to fill in.
                },
                Some(orbit_details) => {
                    let mut details = orbit_details;
                    let child = vstd::std_specs::vec::vec_index_mut(&mut self.orbiting_objects, i);
                    let mut grand = take_children(&mut details);
                    std::mem::swap(&mut child.orbiting_objects, &mut grand);
                    child.extract_orbiting_object_details(orbit_directory);
                },
            }
            i = i + 1;
        }
    }

    /// The names of the centers above `target_name`, root of this subtree
    /// first, appended to the path already walked; `None` if the target
    /// orbits nothing in this subtree. Children are searched in order and
    /// the first hit wins.
    pub fn find_dfs(&self, target_name: &String, current_path: Vec<String>) -> (r: Option<
        Vec<String>,
    >)
        ensures
            (match r {
                Some(p) => spec_find(*self, target_name@, names_of(current_path@)) == Some(
                    names_of(p@),
                ),
                None => spec_find(*self, target_name@, names_of(current_path@)) is None,
            }),
        decreases *self,
    {
        let ghost cs = self.orbiting_objects;
        let ghost walked = names_of(current_path@).push(self.center_of_mass_name@);
        let mut i: usize = 0;
        while i < self.orbiting_objects.len()
            invariant
                i <= cs@.len(),
                cs == self.orbiting_objects,
                walked == names_of(current_path@).push(self.center_of_mass_name@),
                spec_find(*self, target_name@, names_of(current_path@)) == spec_find_list(
                    cs,
                    target_name@,
                    walked,
                    i as int,
                ),
            decreases self.orbiting_objects@.len() - i,
        {
            let mut new_path = clone_names(&current_path);
            new_path.push(self.center_of_mass_name.clone());
            proof {
                assert(names_of(new_path@) =~= walked);
            }
            if same_name(&self.orbiting_objects[i].center_of_mass_name, target_name) {
                return Some(new_path);
            }
            match self.orbiting_objects[i].find_dfs(target_name, new_path) {
                None => {},
                Some(path) => {
                    return Some(path);
                },
            }
            i = i + 1;
        }
        None
    }
}

/// Takes a record's direct orbiters out, leaving it childless.
fn take_children(o: &mut Orbit) -> (r: Vec<Orbit>)
    ensures
        r@ == old(o).spec_children(),
        final(o).spec_name() == old(o).spec_name(),
        final(o).spec_children().len() == 0,
{
    let mut taken: Vec<Orbit> = Vec::new();
    std::mem::swap(&mut taken, &mut o.orbiting_objects);
    taken
}

/// Removes the record with the given center name from the directory, if
/// one is there; the directory shrinks by exactly that record.
fn directory_remove(dir: &mut Vec<Orbit>, name: &String) -> (r: Option<Orbit>)
    ensures
        (match r {
            Some(o) => final(dir)@.len() == old(dir)@.len() - 1 && o.spec_name() == name@,
            None => final(dir)@ == old(dir)@ && forall|k: int|
                0 <= k < final(dir)@.len() ==> (#[trigger] final(dir)@[k].spec_name()) != name@,
        }),
{
    let mut i: usize = 0;
    while i < dir.len()
        invariant
            i <= dir@.len(),
            dir@ == old(dir)@,
            forall|k: int| 0 <= k < i ==> (#[trigger] dir@[k].spec_name()) != name@,
        decreases dir@.len() - i,
    {
        if same_name(&dir[i].center_of_mass_name, name) {
            proof {
                assert(dir@[i as int].spec_name() == name@);
            }
            let o = dir.remove(i);
            return Some(o);
        }
        proof {
            assert(dir@[i as int].spec_name() != name@);
        }
        i = i + 1;
    }
    None
}

/// The index of the record with the given center name, if one is there.
fn dir_find(dir: &Vec<Orbit>, name: &String) -> (r: Option<usize>)
    ensures
        (match r {
            Some(j) => j < dir@.len() && dir@[j as int].spec_name() == name@,
            None => true,
        }),
{
    let mut i: usize = 0;
    while i < dir.len()
        invariant
            i <= dir@.len(),
        decreases dir@.len() - i,
    {
        if same_name(&dir[i].center_of_mass_name, name) {
            proof {
                assert(dir@[i as int].spec_name() == name@);
            }
            return Some(i);
        }
        i = i + 1;
    }
    None
}

fn clone_names(v: &Vec<String>) -> (r: Vec<String>)
    ensures
        r@.map_values(|s: String| s@) == v@.map_values(|s: String| s@),
{
    let mut r: Vec<String> = Vec::new();
    let mut i: usize = 0;
    while i < v.len()
        invariant
            i <= v@.len(),
            r@.len() == i,
            forall|k: int| 0 <= k < i ==> #[trigger] r@[k]@ == v@[k]@,
        decreases v@.len() - i,
    {
        r.push(v[i].clone());
        i = i + 1;
    }
    proof {
        assert(r@.map_values(|s: String| s@) =~= v@.map_values(|s: String| s@));
    }
    r
}

/// The orbit map: the tree hanging below the universal center of mass.
#[derive(Debug)]
pub struct OrbitalMap {
    global_center_of_mass: Orbit,
}

impl OrbitalMap {
    pub closed spec fn spec_root(&self) -> Orbit {
        self.global_center_of_mass
    }

    /// Builds the tree: merges the flat records by center name, starts
    /// from the record named "COM" — which must be present — and fills in
    /// every subtree from the directory.
    pub fn new(raw_orbits: Vec<Orbit>) -> (r: OrbitalMap)
        requires
            exists|i: int|
                0 <= i < raw_orbits@.len() && (#[trigger] raw_orbits@[i]).spec_name() == "COM"@,
        ensures
            r.spec_root().spec_name() == "COM"@,
    {
        let ghost witness: int = choose|i: int|
            0 <= i < raw_orbits@.len() && (#[trigger] raw_orbits@[i]).spec_name() == "COM"@;
        let ghost raws = raw_orbits@;
        let mut orbit_directory = OrbitalMap::combine_raw_orbits(raw_orbits);
        proof {
            assert(has_name(orbit_directory@, raws[witness].spec_name()));
        }
        let root_name: String = com_name();
        let mut com = match directory_remove(&mut orbit_directory, &root_name) {
            Some(o) => o,
            None => {
                proof {
                    let j = choose|j: int|
                        0 <= j < orbit_directory@.len() && (#[trigger] orbit_directory@[
                        j].spec_name()) == "COM"@;
                    assert(false);
                }
                Orbit { center_of_mass_name: root_name, orbiting_objects: Vec::new() }
            },
        };
        com.extract_orbiting_object_details(&mut orbit_directory);
        OrbitalMap { global_center_of_mass: com }
    }

    /// Merges the flat records into a directory with one record per
    /// center name; a name from the input is always found in the result.
    pub fn combine_raw_orbits(raw_orbits: Vec<Orbit>) -> (r: Vec<Orbit>)
        ensures
            forall|i: int|
                0 <= i < raw_orbits@.len() ==> has_name(
                    r@,
                    (#[trigger] raw_orbits@[i]).spec_name(),
                ),
    {
        let ghost raws = raw_orbits@;
        let mut orbit_directory: Vec<Orbit> = Vec::new();
        let mut orbits = raw_orbits;
        let total_count = orbits.len();
        let mut n: usize = 0;
        proof {
            assert(orbits@.skip(0) =~= raws);
        }
        while orbits.len() > 0
            invariant
                total_count == raws.len(),
                n == raws.len() - orbits@.len(),
                0 <= n <= raws.len(),
                orbits@ == raws.skip(n as int),
                forall|i: int|
                    0 <= i < n ==> has_name(orbit_directory@, (#[trigger] raws[i]).spec_name()),
            decreases orbits@.len(),
        {
            proof {
                assert(n < raws.len());
            }
            let orbit = orbits.remove(0);
            proof {
                assert(orbit == raws[n as int]);
                assert(orbits@ =~= raws.skip(n as int + 1));
            }
            let ghost oname = orbit.spec_name();
            let ghost pre = orbit_directory@;
            let slot = dir_find(&orbit_directory, &orbit.center_of_mass_name);
            match slot {
                Some(j) => {
                    merge_into(&mut orbit_directory, j, orbit);
                },
                None => {
                    orbit_directory.push(orbit);
                },
            }
            proof {
                assert forall|i: int| 0 <= i < n + 1 implies has_name(
                    orbit_directory@,
                    (#[trigger] raws[i]).spec_name(),
                ) by {
                    if i < n {
                        let j = choose|j: int|
                            0 <= j < pre.len() && (#[trigger] pre[j].spec_name()) == raws[
                            i].spec_name();
                        assert(orbit_directory@[j].spec_name() == raws[i].spec_name());
                    } else {
                        match slot {
                            Some(j) => {
                                assert(orbit_directory@[j as int].spec_name() == oname);
                            },
                            None => {
                                assert(orbit_directory@[pre.len() as int].spec_name() == oname);
                            },
                        }
                    }
                }
            }
            n = n + 1;
        }
        proof {
            assert forall|i: int| 0 <= i < raw_orbits@.len() implies has_name(
                orbit_directory@,
                (#[trigger] raw_orbits@[i]).spec_name(),
            ) by {
                assert(raws[i] == raw_orbits@[i]);
                assert(has_name(orbit_directory@, raws[i].spec_name()));
            }
        }
        orbit_directory
    }

    /// The total number of direct and indirect orbits in the map.
    pub fn total_orbit_count(&self) -> (r: u64)
        requires
            spec_orbit_count(self.spec_root(), 1) <= u64::MAX,
            1 + spec_height(self.spec_root()) <= u64::MAX,
        ensures
            r as nat == spec_orbit_count(self.spec_root(), 1),
    {
        self.global_center_of_mass.orbit_count(1)
    }

    /// The names along the path from the root down to the center that the
    /// target directly orbits; `None` when the target is not in the map.
    pub fn depth_first_search(&self, target_name: &String) -> (r: Option<Vec<String>>)
        ensures
            (match r {
                Some(p) => spec_find(self.spec_root(), target_name@, Seq::empty()) == Some(
                    names_of(p@),
                ),
                None => spec_find(self.spec_root(), target_name@, Seq::empty()) is None,
            }),
    {
        let paths: Vec<String> = Vec::new();
        proof {
            assert(names_of(paths@) =~= Seq::<Seq<char>>::empty());
        }
        self.global_center_of_mass.find_dfs(target_name, paths)
    }

    /// How many orbital transfers move one object next to another: both
    /// paths are walked from the root, their shared prefix is dropped, and
    /// the remaining hops on either side are counted. `None` when either
    /// object is missing from the map (or the count cannot be
    /// represented).
    pub fn num_transfers(&self, source_name: &String, destination_name: &String) -> (r: Option<
        u64,
    >)
        ensures
            (match (
                spec_find(self.spec_root(), source_name@, Seq::empty()),
                spec_find(self.spec_root(), destination_name@, Seq::empty()),
            ) {
                (Some(sp), Some(dp)) => {
                    let c = common_len(sp, dp, 0);
                    let hops = (sp.len() - c) + (dp.len() - c);
                    r == (if hops <= u64::MAX {
                        Some(hops as u64)
                    } else {
                        None::<u64>
                    })
                },
                _ => r is None,
            }),
    {
        let source_path = match self.depth_first_search(source_name) {
            Some(p) => p,
            None => {
                return None;
            },
        };
        let dest_path = match self.depth_first_search(destination_name) {
            Some(p) => p,
            None => {
                return None;
            },
        };
        let ghost sp = names_of(source_path@);
        let ghost dp = names_of(dest_path@);
        let mut common: usize = 0;
        while common < source_path.len() && common < dest_path.len() && same_name(
            &source_path[common],
            &dest_path[common],
        )
            invariant
                common <= source_path@.len(),
                common <= dest_path@.len(),
                sp == names_of(source_path@),
                dp == names_of(dest_path@),
                common_len(sp, dp, 0) == common_len(sp, dp, common as int),
            decreases source_path@.len() - common,
        {
            common = common + 1;
        }
        proof {
            assert(common == common_len(sp, dp, 0));
        }
        let hops: u128 = (source_path.len() - common) as u128 + (dest_path.len() - common) as u128;
        if hops > u64::MAX as u128 {
            return None;
        }
        Some(hops as u64)
    }
}

/// Whether two names are the same text.
fn same_name(a: &String, b: &String) -> (r: bool)
    ensures
        r == (a@ == b@),
{
    *a == *b
}

/// The universal center's name.
fn com_name() -> (r: String)
    ensures
        r@ == "COM"@,
{
    let r = "COM".to_owned();
    r
}

/// Folds the incoming record into the directory entry at `k`, which must
/// name the same center.
fn merge_into(dir: &mut Vec<Orbit>, k: usize, incoming: Orbit)
    requires
        k < old(dir)@.len(),
        old(dir)@[k as int].spec_name() == incoming.spec_name(),
    ensures
        final(dir)@.len() == old(dir)@.len(),
        forall|j: int|
            0 <= j < final(dir)@.len() ==> (#[trigger] final(dir)@[j].spec_name()) == old(
                dir,
            )@[j].spec_name(),
{
    let mut entry = dir.remove(k);
    entry.combine(incoming);
    dir.insert(k, entry);
    proof {
        assert(forall|j: int|
            0 <= j < dir@.len() ==> (#[trigger] dir@[j].spec_name()) == old(
                dir,
            )@[j].spec_name());
    }
}

/// The position of the first closing parenthesis at or after `i`, or the
/// end.
pub open spec fn paren_pos(s: Seq<char>, i: int) -> int
    decreases s.len() - i,
    when 0 <= i <= s.len()
{
    if i >= s.len() {
        i
    } else if s[i] == ')' {
        i
    } else {
        paren_pos(s, i + 1)
    }
}

proof fn lemma_paren_pos(s: Seq<char>, i: int)
    requires
        0 <= i <= s.len(),
    ensures
        i <= paren_pos(s, i) <= s.len(),
        paren_pos(s, i) < s.len() ==> s[paren_pos(s, i)] == ')',
    decreases s.len() - i,
{
    if i < s.len() && s[i] != ')' {
        lemma_paren_pos(s, i + 1);
    }
}

/// A well-formed orbit line: a center name, one closing parenthesis, and
/// the name of the object orbiting it — no second parenthesis.
pub open spec fn orbit_line_ok(s: Seq<char>) -> bool {
    let k = paren_pos(s, 0);
    k < s.len() && paren_pos(s, k + 1) == s.len()
}

/// Turns "center)orbiter" lines into flat records: each line yields the
/// center with the orbiter as its one direct orbiter.
pub fn parse_orbits(raw_orbits: Vec<String>) -> (r: Vec<Orbit>)
    requires
        forall|i: int| 0 <= i < raw_orbits@.len() ==> orbit_line_ok(#[trigger] raw_orbits@[i]@),
    ensures
        r@.len() == raw_orbits@.len(),
        forall|i: int|
            0 <= i < r@.len() ==> {
                let line = raw_orbits@[i]@;
                let k = paren_pos(line, 0);
                (#[trigger] r@[i]).spec_name() == line.take(k) && r@[i].spec_children().len() == 1
                    && r@[i].spec_children()[0].spec_name() == line.skip(k + 1)
            },
{
    let mut r: Vec<Orbit> = Vec::new();
    let mut i: usize = 0;
    while i < raw_orbits.len()
        invariant
            i <= raw_orbits@.len(),
            forall|t: int| 0 <= t < raw_orbits@.len() ==> orbit_line_ok(#[trigger] raw_orbits@[t]@),
            r@.len() == i,
            forall|t: int|
                0 <= t < i ==> {
                    let line = raw_orbits@[t]@;
                    let k = paren_pos(line, 0);
                    (#[trigger] r@[t]).spec_name() == line.take(k) && r@[t].spec_children().len()
                        == 1 && r@[t].spec_children()[0].spec_name() == line.skip(k + 1)
                },
        decreases raw_orbits@.len() - i,
    {
        let line = raw_orbits[i].as_str();
        let n = line.unicode_len();
        let mut k: usize = 0;
        while k < n && line.get_char(k) != ')'
            invariant
                0 <= k <= n,
                n == line@.len(),
                paren_pos(line@, 0) == paren_pos(line@, k as int),
            decreases n - k,
        {
            k = k + 1;
        }
        proof {
            lemma_paren_pos(line@, 0);
            assert(k == paren_pos(line@, 0));
            assert(orbit_line_ok(raw_orbits@[i as int]@));
            assert(k < n);
        }
        let center = line.substring_char(0, k).to_owned();
        let orbiter = line.substring_char(k + 1, n).to_owned();
        proof {
            assert(center@ =~= line@.take(k as int));
            assert(orbiter@ =~= line@.skip(k + 1));
        }
        let mut main_orbit = Orbit::new(center);
        let orbiting_object = Orbit::new(orbiter);
        main_orbit.add_orbiting_object(orbiting_object);
        r.push(main_orbit);
        i = i + 1;
    }
    r
}

} // verus!
