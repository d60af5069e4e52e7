//! The service's data centres: each IATA airport code with the city it
//! stands in, looked up to name the data centre that answered.
use vstd::prelude::*;

verus! {

/// One entry of the `/locations` list.
#[derive(Debug)]
pub struct Location {
    pub iata: String,
    pub city: String,
}

/// An entry as a pair of character sequences: the code and the city.
pub open spec fn location_pair(l: Location) -> (Seq<char>, Seq<char>) {
    (l.iata@, l.city@)
}

/// The map that inserting the pairs in order builds: a later pair for a
/// code replaces an earlier one.
pub open spec fn map_of_pairs(pairs: Seq<(Seq<char>, Seq<char>)>) -> Map<Seq<char>, Seq<char>>
    decreases pairs.len(),
{
    if pairs.len() == 0 {
        Map::empty()
    } else {
        map_of_pairs(pairs.drop_last()).insert(pairs.last().0, pairs.last().1)
    }
}

/// City names by data centre code.
///
/// The entries are kept in insertion order and looked up from the newest
/// back, so that the newest entry for a code is the one found. A `HashMap`
/// keyed by `String` is not used here: vstd specifies `HashMap`, but with
/// `String` keys Verus does not prove even how many entries one insert
/// leaves, so nothing about the table could be proved on top of it.
pub struct ServerLocations {
    entries: Vec<Location>,
}

impl ServerLocations {
    /// The entries in insertion order, as pairs.
    pub closed spec fn pairs(&self) -> Seq<(Seq<char>, Seq<char>)> {
        self.entries@.map_values(|l: Location| location_pair(l))
    }
}

impl View for ServerLocations {
    type V = Map<Seq<char>, Seq<char>>;

    closed spec fn view(&self) -> Map<Seq<char>, Seq<char>> {
        map_of_pairs(self.pairs())
    }
}

/// The map holds exactly the codes that some pair carries.
proof fn lemma_map_of_pairs_absent(pairs: Seq<(Seq<char>, Seq<char>)>, code: Seq<char>)
    requires
        forall|j: int| 0 <= j < pairs.len() ==> pairs[j].0 != code,
    ensures
        !map_of_pairs(pairs).dom().contains(code),
    decreases pairs.len(),
{
    if pairs.len() > 0 {
        lemma_map_of_pairs_absent(pairs.drop_last(), code);
    }
}

/// Law: a code maps to the city of the last pair that carries it, so a later
/// entry for a code replaces an earlier one.
pub proof fn law_last_entry_wins(pairs: Seq<(Seq<char>, Seq<char>)>, code: Seq<char>, i: int)
    requires
        0 <= i < pairs.len(),
        pairs[i].0 == code,
        forall|j: int| i < j < pairs.len() ==> pairs[j].0 != code,
    ensures
        map_of_pairs(pairs).dom().contains(code),
        map_of_pairs(pairs)[code] == pairs[i].1,
    decreases pairs.len(),
{
    if i < pairs.len() - 1 {
        law_last_entry_wins(pairs.drop_last(), code, i);
    }
}

impl ServerLocations {
    /// An empty table.
    pub fn new() -> (t: Self)
        ensures
            t@ == Map::<Seq<char>, Seq<char>>::empty(),
    {
        let t = ServerLocations { entries: Vec::new() };
        assert(t.pairs() =~= Seq::<(Seq<char>, Seq<char>)>::empty());
        t
    }

    /// Records that `iata` stands in `city`, replacing what was recorded for it.
    pub fn insert(&mut self, iata: String, city: String)
        ensures
            final(self)@ == old(self)@.insert(iata@, city@),
    {
        let ghost before = self.pairs();
        self.entries.push(Location { iata, city });
        assert(self.pairs().drop_last() =~= before);
    }

    /// The city recorded for `iata`, if any.
    pub fn get(&self, iata: &String) -> (r: Option<&String>)
        ensures
            match r {
                Some(city) => self@.dom().contains(iata@) && self@[iata@] == city@,
                None => !self@.dom().contains(iata@),
            },
    {
        let n = self.entries.len();
        let mut k: usize = n;
        while k > 0
            invariant
                k <= n == self.entries@.len(),
                self.pairs().len() == n,
                forall|j: int| k <= j < n ==> self.pairs()[j].0 != iata@,
            decreases k,
        {
            k = k - 1;
            if self.entries[k].iata == *iata {
                proof {
                    law_last_entry_wins(self.pairs(), iata@, k as int);
                }
                return Some(&self.entries[k].city);
            }
        }
        proof {
            lemma_map_of_pairs_absent(self.pairs(), iata@);
        }
        None
    }

    /// The table that the `/locations` list describes: each entry recorded in
    /// order, so that a later entry for a code replaces an earlier one.
    pub fn from_locations(locations: Vec<Location>) -> (t: Self)
        ensures
            t@ == map_of_pairs(locations@.map_values(|l: Location| location_pair(l))),
    {
        let t = ServerLocations { entries: locations };
        t
    }

    /// The city of the data centre `colo`, or `Unknown` where none is recorded.
    pub fn city_or_unknown(&self, colo: &String) -> (city: String)
        ensures
            self@.dom().contains(colo@) ==> city@ == self@[colo@],
            !self@.dom().contains(colo@) ==> city@ == "Unknown"@,
    {
        match self.get(colo) {
            Some(c) => c.clone(),
            None => String::from_str("Unknown"),
        }
    }
}

/// Law: after `insert(iata, city)`, looking up `iata` gives `city`, and
/// every other code gives what it gave before.
pub proof fn law_lookup_after_insert(before: ServerLocations, after: ServerLocations, iata: Seq<char>, city: Seq<char>)
    requires
        after@ == before@.insert(iata, city),
    ensures
        after@.dom().contains(iata),
        after@[iata] == city,
        forall|other: Seq<char>|
            other != iata ==> (#[trigger] after@.dom().contains(other) == before@.dom().contains(other))
                && (before@.dom().contains(other) ==> after@[other] == before@[other]),
{
}

} // verus!
