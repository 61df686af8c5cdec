//! The command line: what can be asked, what is refused, and which engine answers.
//!
//! Everything the services cannot do is caught here, before the first byte goes out,
//! always as a usage error whose message names the limit. The engine is chosen exactly
//! once: from `--at` for a search, from the id prefix for `show`.
pub mod isbn;
pub mod run;
pub mod validate;

use vstd::prelude::*;
use crate::libraries::{Entry, LatLon, LocView};
use crate::model::{AvailabilityMode, Engine, FetchWindow, Limit, Location, Page, QuerySpec, RecordId, SortKey};
use crate::select::{Filters, PageCut};
use crate::text::views;

verus! {

/// The whole command line, as the argument parser hands it over.
#[derive(Debug, Clone, Default)]
pub struct Cli {
    /// The subcommand; none for a bare invocation, which prints the long help.
    pub command: Option<Command>,
    /// `--json`: one JSON document on stdout.
    pub json: bool,
    /// `--no-cache`: neither read nor write the response cache.
    pub no_cache: bool,
}

impl Cli {
    /// Whether the response cache is used: on unless `--no-cache` says otherwise.
    pub fn cache(&self) -> (r: bool)
        ensures
            r == !self.no_cache,
    {
        !self.no_cache
    }
}

/// The subcommands.
#[derive(Debug, Clone)]
pub enum Command {
    /// Search one or more catalogues.
    Search(SearchArgs),
    /// One record in full.
    Show(ShowArgs),
    /// The compiled-in library list.
    Libraries(LibrariesArgs),
}

/// `blibs search`, as the argument parser hands it over.
#[derive(Debug, Clone, Default)]
pub struct SearchArgs {
    /// Free search words; a shell-quoted argument is one phrase.
    pub terms: Vec<String>,
    pub title: Option<String>,
    pub author: Option<String>,
    pub subject: Option<String>,
    pub publisher: Option<String>,
    pub year: Option<String>,
    pub isbn: Option<String>,
    /// `--at`, already split at commas.
    pub at: Vec<String>,
    /// `--limit`, signed so that a negative value reaches validation.
    pub limit: Option<i64>,
    /// `--page`, signed for the same reason.
    pub page: Option<i64>,
    pub sort: Option<String>,
    pub format: Option<String>,
    pub language: Option<String>,
    pub available: bool,
    pub no_availability: bool,
}

/// `blibs show`, as the argument parser hands it over.
#[derive(Debug, Clone, Default)]
pub struct ShowArgs {
    /// The full, source-prefixed record id.
    pub id: String,
    /// `--at`, already split at commas.
    pub at: Vec<String>,
    pub no_availability: bool,
}

/// `blibs libraries`, as the argument parser hands it over.
#[derive(Debug, Clone, Default)]
pub struct LibrariesArgs {
    /// One library or branch to show in detail.
    pub key: Option<String>,
    pub find: Option<String>,
    pub branches: bool,
    pub near: Option<String>,
}

/// The values `--sort` accepts.
pub fn sort_values() -> (v: Vec<&'static str>)
    ensures
        views(v@) == validate::sort_names(),
{
    let v = vec!["relevance", "year", "title", "author", "availability"];
    proof {
        assert(views(v@) =~= validate::sort_names());
    }
    v
}

/// The values `--format` accepts.
pub fn format_values() -> (v: Vec<&'static str>)
    ensures
        views(v@) == validate::format_names(),
{
    let v = vec![
        "book",
        "ebook",
        "journal",
        "ejournal",
        "article",
        "database",
        "map",
        "score",
        "audio",
        "video",
        "image",
        "electronic",
        "manuscript",
        "object",
        "mixed",
        "unknown",
    ];
    proof {
        assert(views(v@) =~= validate::format_names());
    }
    v
}

/// A validated search: everything a run needs, and nothing it has to check again.
#[derive(Debug, Clone, PartialEq)]
pub struct Plan {
    pub query: QuerySpec,
    /// The invocation echoed back in one string, for headings.
    pub terms_echo: String,
    /// The locations of `--at`, deduplicated, in the user's order.
    pub locations: Vec<Location>,
    /// The VÖBB locations whose window is too deep to be paged to.
    pub too_deep: Option<TooDeep>,
    pub limit: Limit,
    pub page: Page,
    pub sort: SortKey,
    pub filters: Filters,
    pub availability: AvailabilityMode,
    /// `--available`.
    pub only_available: bool,
    pub json: bool,
    pub cache: bool,
}

/// The locations that are not searched because their window is too deep.
#[derive(Debug, Clone, PartialEq, Eq)]
pub struct TooDeep {
    /// Their keys.
    pub keys: Vec<String>,
    /// The last position the window reaches.
    pub position: u32,
    /// The deepest position their catalogue can be paged to.
    pub max: u32,
}

/// The views of a list of strings.
pub open spec fn string_views(v: Seq<String>) -> Seq<Seq<char>> {
    v.map_values(|s: String| s@)
}

/// The views of a list of locations.
pub open spec fn location_views(v: Seq<Location>) -> Seq<LocView> {
    v.map_values(|l: Location| l.view())
}

impl TooDeep {
    /// Whether the location with this key is one of them.
    pub fn holds(&self, key: &str) -> (r: bool)
        ensures
            r == string_views(self.keys@).contains(key@),
    {
        let mut i: usize = 0;
        while i < self.keys.len()
            invariant
                i <= self.keys.len(),
                forall|j: int| 0 <= j < i ==> self.keys@[j]@ != key@,
            decreases self.keys.len() - i,
        {
            if crate::text::same_text(self.keys[i].as_str(), key) {
                proof {
                    assert(string_views(self.keys@)[i as int] == key@);
                }
                return true;
            }
            i = i + 1;
        }
        proof {
            if string_views(self.keys@).contains(key@) {
                let j = choose|j: int| 0 <= j < string_views(self.keys@).len() && string_views(self.keys@)[j] == key@;
                assert(self.keys@[j]@ == key@);
            }
        }
        false
    }
}

/// Whether a location's key is among the refused ones.
pub open spec fn refused_key(t: Option<TooDeep>, key: Seq<char>) -> bool {
    t matches Some(d) && string_views(d.keys@).contains(key)
}

/// The locations that are searched: every one whose window is not too deep.
pub open spec fn searched(locs: Seq<LocView>, t: Option<TooDeep>) -> Seq<LocView>
    decreases locs.len(),
{
    if locs.len() == 0 {
        Seq::empty()
    } else if refused_key(t, locs.last().key) {
        searched(locs.drop_last(), t)
    } else {
        searched(locs.drop_last(), t).push(locs.last())
    }
}

impl Plan {
    /// Whether a location's window is too deep to be searched.
    fn refused(&self, key: &str) -> (r: bool)
        ensures
            r == refused_key(self.too_deep, key@),
    {
        match &self.too_deep {
            Some(d) => d.holds(key),
            None => false,
        }
    }

    /// The searches to run: the searched locations split by engine, or none at all when
    /// every location of `--at` is refused.
    pub fn by_engine(&self) -> (g: Vec<(Engine, Vec<Location>)>)
        ensures
            ({
                let s = searched(location_views(self.locations@), self.too_deep);
                if s.len() == 0 && self.locations@.len() > 0 {
                    g@.len() == 0
                } else {
                    validate::group_views(g@) == validate::engine_groups(s)
                }
            }),
    {
        let mut kept: Vec<Location> = Vec::new();
        let mut i: usize = 0;
        while i < self.locations.len()
            invariant
                i <= self.locations.len(),
                location_views(kept@) == searched(location_views(self.locations@).take(i as int), self.too_deep),
            decreases self.locations.len() - i,
        {
            proof {
                assert(location_views(self.locations@).take(i + 1).drop_last() =~= location_views(self.locations@).take(i as int));
            }
            if !self.refused(self.locations[i].key.as_str()) {
                let ghost before = kept@;
                let l = self.locations[i].copy();
                kept.push(l);
                proof {
                    assert(location_views(kept@) =~= location_views(before).push(l.view()));
                }
            }
            i = i + 1;
        }
        proof {
            assert(location_views(self.locations@).take(i as int) =~= location_views(self.locations@));
        }
        if kept.len() == 0 && self.locations.len() > 0 {
            return Vec::new();
        }
        validate::split_by_engine(&kept)
    }

    /// The engines the plan's document names: one per engine with a location in `--at`,
    /// refused or not, in engine order.
    pub fn engines(&self) -> (v: Vec<Engine>)
        ensures
            v@ == validate::engine_groups(location_views(self.locations@)).map_values(|g: (Engine, Seq<LocView>)| g.0),
    {
        let groups = validate::split_by_engine(&self.locations);
        let mut v: Vec<Engine> = Vec::new();
        let mut i: usize = 0;
        while i < groups.len()
            invariant
                i <= groups.len(),
                v@ == validate::group_views(groups@).take(i as int).map_values(|g: (Engine, Seq<LocView>)| g.0),
            decreases groups.len() - i,
        {
            v.push(groups[i].0);
            proof {
                assert(v@ =~= validate::group_views(groups@).take(i + 1).map_values(|g: (Engine, Seq<LocView>)| g.0));
            }
            i = i + 1;
        }
        proof {
            assert(validate::group_views(groups@).take(i as int) =~= validate::group_views(groups@));
        }
        v
    }

    /// Whether the window is one anchored block: a client-side filter or sort needs one
    /// ordered block to cut its pages from.
    pub open spec fn anchored_spec(&self) -> bool {
        self.filters.is_active_spec() || self.sort != SortKey::Relevance
    }

    /// Whether the window is one anchored block.
    pub fn anchored(&self) -> (r: bool)
        ensures
            r == self.anchored_spec(),
    {
        self.filters.is_active() || !matches!(self.sort, SortKey::Relevance)
    }

    /// The window the catalogue is asked for.
    pub fn window(&self) -> (w: FetchWindow)
        ensures
            (w.start as int, w.size.value()) == FetchWindow::plan_spec(self.limit, self.page, self.anchored_spec()),
    {
        FetchWindow::plan(self.limit, self.page, self.anchored())
    }

    /// Where the shown page starts in what was fetched.
    pub fn cut(&self) -> (c: PageCut)
        ensures
            c.offset == PageCut::offset_spec(self.limit, self.page, self.anchored_spec()),
            c.len == self.limit.value(),
    {
        PageCut::plan(self.limit, self.page, self.anchored())
    }
}

/// A validated `show`.
#[derive(Debug, Clone, PartialEq)]
pub struct ShowPlan {
    pub id: RecordId,
    /// The libraries to mark and list first.
    pub locations: Vec<Location>,
    pub availability: AvailabilityMode,
    pub json: bool,
    pub cache: bool,
}

impl ShowPlan {
    /// The engine the id's prefix names.
    pub fn engine(&self) -> (e: Engine)
        ensures
            e == self.id.engine_spec(),
    {
        self.id.engine()
    }
}

/// A validated `libraries`.
#[derive(Debug, Clone, PartialEq)]
pub struct LibrariesPlan {
    /// The entry a positional key names.
    pub detail: Option<Entry>,
    /// `--find`, trimmed.
    pub find: Option<String>,
    pub branches: bool,
    /// The point `--near` names.
    pub near: Option<LatLon>,
    /// `--near` as typed.
    pub near_input: Option<String>,
    pub json: bool,
}

} // verus!
