//! Typed projections of the market-data API's reference tables: the world
//! id/name table, the datacenter table, and the lookups derived from them.
//!
//! The HTTP fetches and the JSON decoding of the tables live outside the
//! verified library; what stands here is the data model, the request URL
//! construction, and the lookups as pure functions of a fetched table.

use vstd::prelude::*;
use vstd::string::StringExecFns;
use crate::cache::CacheKey;
use crate::strorder;

verus! {

/// A failed lookup against the market-data API: either the transport
/// failed, or the requested world is absent from the reference table.
#[derive(Debug, Clone, PartialEq, Eq, Structural)]
pub enum UniversalisError {
    InvalidWorldId,
    UniversalisConnectionFails,
}

/// The region a datacenter belongs to.
#[derive(Debug, Clone, PartialEq, Eq, Hash, Structural)]
pub enum Region {
    Japan,
    NorthAmerica,
    Europe,
    Oceania,
    China,
    Korea,
}

impl View for Region {
    type V = Region;

    open spec fn view(&self) -> Region {
        *self
    }
}

impl CacheKey for Region {
    fn key_eq(&self, other: &Self) -> (r: bool)
        ensures
            r == (self@ == other@),
    {
        *self == *other
    }
}

/// One row of the world table: a world's id and name.
#[derive(Clone)]
pub struct WorldMapping {
    pub id: usize,
    pub name: String,
}

/// One row of the datacenter table: the datacenter's name, its region and
/// the ids of the worlds it contains.
#[derive(Clone)]
pub struct DatacenterMapping {
    pub name: String,
    pub region: Region,
    pub worlds: Vec<usize>,
}

/// The request URL for one endpoint of the market-data API.
pub fn request_url_builder(endpoint: &str) -> (r: String)
    ensures
        r@ == "https://universalis.app/api/v2/"@ + endpoint@,
{
    let base = String::from_str("https://universalis.app/api/v2/");
    base.concat(endpoint)
}

/// The name of the first world in the table with the given id, if any.
pub open spec fn spec_world_name(worlds: Seq<WorldMapping>, id: usize) -> Option<Seq<char>>
    decreases worlds.len(),
{
    if worlds.len() == 0 {
        None
    } else if worlds[0].id == id {
        Some(worlds[0].name@)
    } else {
        spec_world_name(worlds.drop_first(), id)
    }
}

/// The id of the first world in the table with the given name, if any.
pub open spec fn spec_world_id(worlds: Seq<WorldMapping>, name: Seq<char>) -> Option<usize>
    decreases worlds.len(),
{
    if worlds.len() == 0 {
        None
    } else if worlds[0].name@ == name {
        Some(worlds[0].id)
    } else {
        spec_world_id(worlds.drop_first(), name)
    }
}

/// Resolves a world id to its name in the given world table. A world
/// absent from the table yields `InvalidWorldId`, never a crash.
pub fn get_world_name(worlds: &Vec<WorldMapping>, id: usize) -> (r: Result<
    String,
    UniversalisError,
>)
    ensures
        match r {
            Ok(name) => spec_world_name(worlds@, id) == Some(name@),
            Err(e) => spec_world_name(worlds@, id) is None && e
                == UniversalisError::InvalidWorldId,
        },
{
    let n = worlds.len();
    let mut i: usize = 0;
    proof {
        assert(worlds@.skip(0) =~= worlds@);
    }
    while i < n
        invariant
            n == worlds@.len(),
            i <= n,
            spec_world_name(worlds@, id) == spec_world_name(worlds@.skip(i as int), id),
        decreases n - i,
    {
        proof {
            assert(worlds@.skip(i as int).len() > 0);
            assert(worlds@.skip(i as int)[0] == worlds@[i as int]);
            assert(worlds@.skip(i as int).drop_first() =~= worlds@.skip(i as int + 1));
        }
        if worlds[i].id == id {
            return Ok(worlds[i].name.clone());
        }
        i += 1;
    }
    proof {
        assert(worlds@.skip(n as int) =~= Seq::<WorldMapping>::empty());
    }
    Err(UniversalisError::InvalidWorldId)
}

/// Resolves a world name to its id in the given world table. A name
/// absent from the table yields `InvalidWorldId`, never a crash.
pub fn get_world_id(worlds: &Vec<WorldMapping>, name: String) -> (r: Result<
    usize,
    UniversalisError,
>)
    ensures
        match r {
            Ok(id) => spec_world_id(worlds@, name@) == Some(id),
            Err(e) => spec_world_id(worlds@, name@) is None && e
                == UniversalisError::InvalidWorldId,
        },
{
    let n = worlds.len();
    let mut i: usize = 0;
    proof {
        assert(worlds@.skip(0) =~= worlds@);
    }
    while i < n
        invariant
            n == worlds@.len(),
            i <= n,
            spec_world_id(worlds@, name@) == spec_world_id(worlds@.skip(i as int), name@),
        decreases n - i,
    {
        proof {
            assert(worlds@.skip(i as int).len() > 0);
            assert(worlds@.skip(i as int)[0] == worlds@[i as int]);
            assert(worlds@.skip(i as int).drop_first() =~= worlds@.skip(i as int + 1));
        }
        if worlds[i].name == name {
            return Ok(worlds[i].id);
        }
        i += 1;
    }
    proof {
        assert(worlds@.skip(n as int) =~= Seq::<WorldMapping>::empty());
    }
    Err(UniversalisError::InvalidWorldId)
}

/// The ids of all worlds in datacenters of the given region, in table order.
pub open spec fn spec_region_ids(dcs: Seq<DatacenterMapping>, region: Region) -> Seq<usize>
    decreases dcs.len(),
{
    if dcs.len() == 0 {
        Seq::empty()
    } else {
        spec_region_ids(dcs.drop_last(), region) + (if dcs.last().region == region {
            dcs.last().worlds@
        } else {
            Seq::empty()
        })
    }
}

/// Whether every one of the ids resolves in the world table.
pub open spec fn spec_all_resolvable(ids: Seq<usize>, worlds: Seq<WorldMapping>) -> bool {
    forall|j: int| 0 <= j < ids.len() ==> spec_world_name(worlds, ids[j]) is Some
}

/// The name an id resolves to; an unresolvable id yields the empty name.
pub open spec fn spec_name_or_empty(worlds: Seq<WorldMapping>, id: usize) -> Seq<char> {
    match spec_world_name(worlds, id) {
        Some(n) => n,
        None => Seq::empty(),
    }
}

/// The names the ids resolve to, in order.
pub open spec fn spec_resolved_names(ids: Seq<usize>, worlds: Seq<WorldMapping>) -> Seq<
    Seq<char>,
> {
    ids.map_values(|id: usize| spec_name_or_empty(worlds, id))
}

/// The names of all worlds of the given region, resolved against the world
/// table and sorted into ascending lexicographic order — whatever order the
/// datacenter table lists them in. If any world id of the region fails to
/// resolve, the whole lookup fails with `InvalidWorldId`.
pub fn get_region_worlds(
    datacenters: &Vec<DatacenterMapping>,
    worlds: &Vec<WorldMapping>,
    region: Region,
) -> (r: Result<Vec<String>, UniversalisError>)
    ensures
        match r {
            Ok(v) => {
                &&& spec_all_resolvable(spec_region_ids(datacenters@, region), worlds@)
                &&& strorder::lex_sorted(strorder::str_views(v@))
                &&& strorder::str_views(v@).to_multiset() == spec_resolved_names(
                    spec_region_ids(datacenters@, region),
                    worlds@,
                ).to_multiset()
            },
            Err(e) => !spec_all_resolvable(spec_region_ids(datacenters@, region), worlds@) && e
                == UniversalisError::InvalidWorldId,
        },
{
    let mut ids: Vec<usize> = Vec::new();
    let nd = datacenters.len();
    let mut i: usize = 0;
    proof {
        assert(datacenters@.take(0) =~= Seq::<DatacenterMapping>::empty());
        assert(ids@ =~= spec_region_ids(datacenters@.take(0), region));
    }
    while i < nd
        invariant
            nd == datacenters@.len(),
            i <= nd,
            ids@ == spec_region_ids(datacenters@.take(i as int), region),
        decreases nd - i,
    {
        let ghost base = ids@;
        if datacenters[i].region == region {
            let nw = datacenters[i].worlds.len();
            let mut k: usize = 0;
            while k < nw
                invariant
                    nd == datacenters@.len(),
                    i < nd,
                    nw == datacenters@[i as int].worlds@.len(),
                    k <= nw,
                    ids@ == base + datacenters@[i as int].worlds@.take(k as int),
                decreases nw - k,
            {
                ids.push(datacenters[i].worlds[k]);
                proof {
                    assert(ids@ =~= base + datacenters@[i as int].worlds@.take(k as int + 1));
                }
                k += 1;
            }
            proof {
                assert(datacenters@[i as int].worlds@.take(nw as int) =~= datacenters@[
                    i as int].worlds@);
            }
        } else {
            proof {
                assert(ids@ =~= base + Seq::<usize>::empty());
            }
        }
        proof {
            let t1 = datacenters@.take(i as int + 1);
            assert(t1.drop_last() =~= datacenters@.take(i as int));
            assert(t1.last() == datacenters@[i as int]);
        }
        i += 1;
    }
    proof {
        assert(datacenters@.take(nd as int) =~= datacenters@);
    }
    let ghost gids = ids@;
    let mut names: Vec<String> = Vec::new();
    let m = ids.len();
    let mut j: usize = 0;
    while j < m
        invariant
            gids == spec_region_ids(datacenters@, region),
            ids@ == gids,
            m == ids@.len(),
            j <= m,
            names@.len() == j,
            forall|p: int| 0 <= p < j ==> spec_world_name(worlds@, gids[p]) is Some,
            forall|p: int|
                0 <= p < j ==> names@[p]@ == spec_name_or_empty(worlds@, gids[p]),
        decreases m - j,
    {
        match get_world_name(worlds, ids[j]) {
            Ok(nm) => {
                names.push(nm);
            },
            Err(e) => {
                proof {
                    assert(spec_world_name(worlds@, gids[j as int]) is None);
                    assert(!spec_all_resolvable(gids, worlds@));
                }
                return Err(e);
            },
        }
        j += 1;
    }
    proof {
        assert(strorder::str_views(names@) =~= spec_resolved_names(gids, worlds@));
    }
    strorder::lex_sort(&mut names);
    Ok(names)
}

} // verus!
