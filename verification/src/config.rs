//! Configuration data: games and their categories.
//!
//! Configuration is a read-only input, constructed once before a resolution
//! pass starts. A category names the upstream source categories that count as
//! equivalent leaderboards, restricts leaderboard variables to allowed values,
//! lists the levels to query for individual-level categories, and may merge
//! the records of other categories of the same game as sub-categories.

use vstd::prelude::*;

verus! {

/// The allowed values of one leaderboard variable.
pub struct VariableValues {
    pub variable: String,
    pub values: Vec<String>,
}

/// Specification image of [`VariableValues`].
pub ghost struct VariableValuesV {
    pub variable: Seq<char>,
    pub values: Seq<Seq<char>>,
}

impl View for VariableValues {
    type V = VariableValuesV;

    open spec fn view(&self) -> VariableValuesV {
        VariableValuesV {
            variable: self.variable@,
            values: self.values@.map_values(|s: String| s@),
        }
    }
}

/// One logical category of a game.
pub struct CategoryConfig {
    /// Upstream source-category ids treated as equivalent leaderboards.
    pub src_categories: Vec<String>,
    /// Variable filtering; an empty list means the unfiltered leaderboard.
    pub variable_state: Vec<VariableValues>,
    /// Names of categories of the same game whose records are merged in.
    pub subcategories: Vec<String>,
    /// Level ids, populated only for individual-level categories.
    pub levels: Vec<String>,
}

/// Specification image of [`CategoryConfig`].
pub ghost struct CategoryConfigV {
    pub src_categories: Seq<Seq<char>>,
    pub variable_state: Seq<VariableValuesV>,
    pub subcategories: Seq<Seq<char>>,
    pub levels: Seq<Seq<char>>,
}

impl View for CategoryConfig {
    type V = CategoryConfigV;

    open spec fn view(&self) -> CategoryConfigV {
        CategoryConfigV {
            src_categories: self.src_categories@.map_values(|s: String| s@),
            variable_state: self.variable_state@.map_values(|v: VariableValues| v@),
            subcategories: self.subcategories@.map_values(|s: String| s@),
            levels: self.levels@.map_values(|s: String| s@),
        }
    }
}

impl CategoryConfigV {
    /// Variable names are unique, as they come from a keyed map.
    pub open spec fn wf(self) -> bool {
        forall|i: int, j: int|
            0 <= i < j < self.variable_state.len() ==> #[trigger] self.variable_state[i].variable
                != #[trigger] self.variable_state[j].variable
    }
}

/// An upstream game reference together with the category ids the user chose
/// to ignore for it (the ignored list is not consumed by the resolver).
pub struct SrcGameRef {
    pub id: String,
    pub ignored_categories: Vec<String>,
}

/// A named category of a game.
pub struct CategoryEntry {
    pub name: String,
    pub config: CategoryConfig,
}

/// Specification image of [`GameConfig`].
pub ghost struct GameConfigV {
    pub src_games: Seq<Seq<char>>,
    pub categories: Seq<(Seq<char>, CategoryConfigV)>,
}

/// One configured game: its upstream game references and its categories.
pub struct GameConfig {
    pub src_games: Vec<SrcGameRef>,
    pub categories: Vec<CategoryEntry>,
}

impl View for GameConfig {
    type V = GameConfigV;

    open spec fn view(&self) -> GameConfigV {
        GameConfigV {
            src_games: self.src_games@.map_values(|g: SrcGameRef| g.id@),
            categories: self.categories@.map_values(
                |c: CategoryEntry| (c.name@, c.config@),
            ),
        }
    }
}

/// The configured category under `name`, if any.
pub open spec fn find_category(game: GameConfigV, name: Seq<char>) -> Option<CategoryConfigV> {
    if exists|i: int| 0 <= i < game.categories.len() && game.categories[i].0 == name {
        let i = choose|i: int| 0 <= i < game.categories.len() && game.categories[i].0 == name;
        Some(game.categories[i].1)
    } else {
        None
    }
}

impl GameConfigV {
    /// Category names are unique and every category is well formed.
    pub open spec fn wf(self) -> bool {
        &&& forall|i: int, j: int|
            0 <= i < j < self.categories.len() ==> #[trigger] self.categories[i].0
                != #[trigger] self.categories[j].0
        &&& forall|i: int|
            0 <= i < self.categories.len() ==> (#[trigger] self.categories[i].1).wf()
    }
}

impl GameConfig {
    /// Look the named category up in this game's category list.
    pub fn category(&self, name: &String) -> (r: Option<&CategoryConfig>)
        requires
            self@.wf(),
        ensures
            match r {
                Some(c) => find_category(self@, name@) == Some(c@),
                None => find_category(self@, name@) is None,
            },
    {
        let mut i: usize = 0;
        while i < self.categories.len()
            invariant
                i <= self.categories.len(),
                forall|j: int| 0 <= j < i ==> #[trigger] self@.categories[j].0 != name@,
            decreases self.categories.len() - i,
        {
            if self.categories[i].name == *name {
                assert(self@.categories[i as int].0 == name@);
                return Some(&self.categories[i].config);
            }
            i = i + 1;
        }
        None
    }
}

/// A named game.
pub struct GameEntry {
    pub name: String,
    pub config: GameConfig,
}

/// Specification image of [`Config`].
pub ghost struct ConfigV {
    pub games: Seq<(Seq<char>, GameConfigV)>,
}

/// The whole configuration: all games by name.
pub struct Config {
    pub games: Vec<GameEntry>,
}

impl View for Config {
    type V = ConfigV;

    open spec fn view(&self) -> ConfigV {
        ConfigV { games: self.games@.map_values(|g: GameEntry| (g.name@, g.config@)) }
    }
}

/// The configured game under `name`, if any.
pub open spec fn find_game(config: ConfigV, name: Seq<char>) -> Option<GameConfigV> {
    if exists|i: int| 0 <= i < config.games.len() && config.games[i].0 == name {
        let i = choose|i: int| 0 <= i < config.games.len() && config.games[i].0 == name;
        Some(config.games[i].1)
    } else {
        None
    }
}

impl ConfigV {
    /// Game names are unique and every game is well formed.
    pub open spec fn wf(self) -> bool {
        &&& forall|i: int, j: int|
            0 <= i < j < self.games.len() ==> #[trigger] self.games[i].0
                != #[trigger] self.games[j].0
        &&& forall|i: int| 0 <= i < self.games.len() ==> (#[trigger] self.games[i].1).wf()
    }
}

impl Config {
    /// Look the named game up.
    pub fn game(&self, name: &String) -> (r: Option<&GameConfig>)
        requires
            self@.wf(),
        ensures
            match r {
                Some(g) => find_game(self@, name@) == Some(g@),
                None => find_game(self@, name@) is None,
            },
    {
        let mut i: usize = 0;
        while i < self.games.len()
            invariant
                i <= self.games.len(),
                forall|j: int| 0 <= j < i ==> #[trigger] self@.games[j].0 != name@,
            decreases self.games.len() - i,
        {
            if self.games[i].name == *name {
                assert(self@.games[i as int].0 == name@);
                return Some(&self.games[i].config);
            }
            i = i + 1;
        }
        None
    }
}

} // verus!
