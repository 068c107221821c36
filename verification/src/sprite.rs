//! Sprite contexts: which texture a sprite shows, chosen by conditions on
//! the thing being drawn.
use vstd::prelude::*;

use crate::atlas::{atlas_key, AssetError, TextureAtlas};
use crate::resource::ResourceId;

verus! {

/// The team of a player, as far as sprite conditions look at it.
#[derive(Clone, Copy, Debug, PartialEq, Eq, Structural)]
pub enum Team {
    Red,
    Blu,
    Spectator,
}

/// A branch of a sprite context: a further condition, or a texture.
#[derive(Debug)]
pub enum SpriteContextBranch {
    Condition(Box<SpriteContextCondition>),
    Texture(ResourceId),
}

/// A condition that picks a branch.
#[derive(Debug)]
pub enum SpriteContextCondition {
    /// Picks the branch of the drawn thing's team.
    Team {
        red: Option<SpriteContextBranch>,
        blu: Option<SpriteContextBranch>,
        spectator: Option<SpriteContextBranch>,
    },
}

/// The sprite context of one kind of sprite.
#[derive(Debug)]
pub struct SpriteContextAsset {
    pub branch: SpriteContextBranch,
}

/// The texture that `b` picks for a thing of team `team`.
pub open spec fn spec_branch_texture(b: SpriteContextBranch, team: Option<Team>) -> Option<
    (Seq<char>, Seq<char>),
>
    decreases b,
{
    match b {
        SpriteContextBranch::Texture(id) => Some(id@),
        SpriteContextBranch::Condition(c) => match *c {
            SpriteContextCondition::Team { red, blu, spectator } => {
                let chosen = match team {
                    Some(Team::Red) => red,
                    Some(Team::Blu) => blu,
                    Some(Team::Spectator) => spectator,
                    None => None,
                };
                match chosen {
                    Some(next) => spec_branch_texture(next, team),
                    None => None,
                }
            },
        },
    }
}

/// The texture that condition `c` picks for a thing of team `team`.
pub open spec fn spec_condition_texture(c: SpriteContextCondition, team: Option<Team>) -> Option<
    (Seq<char>, Seq<char>),
> {
    spec_branch_texture(SpriteContextBranch::Condition(Box::new(c)), team)
}

/// A team condition picks the branch of the thing's own team and nothing
/// else: for a red thing the texture is what the red branch picks, and
/// there is none when the red branch is missing, whatever the blue and
/// spectator branches hold; likewise for blue and spectator things. A thing
/// without a team gets no texture. A texture branch picks its texture.
pub proof fn law_team_picks_own_branch(
    red: Option<SpriteContextBranch>,
    blu: Option<SpriteContextBranch>,
    spectator: Option<SpriteContextBranch>,
    other_red: Option<SpriteContextBranch>,
    other_blu: Option<SpriteContextBranch>,
    other_spectator: Option<SpriteContextBranch>,
    id: ResourceId,
    team: Option<Team>,
)
    ensures
        ({
            let c = SpriteContextCondition::Team { red, blu, spectator };
            &&& red is None ==> spec_condition_texture(c, Some(Team::Red)) is None
            &&& blu is None ==> spec_condition_texture(c, Some(Team::Blu)) is None
            &&& spectator is None ==> spec_condition_texture(c, Some(Team::Spectator)) is None
            &&& red matches Some(b) ==> spec_condition_texture(c, Some(Team::Red))
                == spec_branch_texture(b, Some(Team::Red))
            &&& blu matches Some(b) ==> spec_condition_texture(c, Some(Team::Blu))
                == spec_branch_texture(b, Some(Team::Blu))
            &&& spectator matches Some(b) ==> spec_condition_texture(c, Some(Team::Spectator))
                == spec_branch_texture(b, Some(Team::Spectator))
            &&& spec_condition_texture(c, None) is None
        }),
        spec_condition_texture(
            SpriteContextCondition::Team { red, blu, spectator },
            Some(Team::Red),
        ) == spec_condition_texture(
            SpriteContextCondition::Team { red, blu: other_blu, spectator: other_spectator },
            Some(Team::Red),
        ),
        spec_condition_texture(
            SpriteContextCondition::Team { red, blu, spectator },
            Some(Team::Blu),
        ) == spec_condition_texture(
            SpriteContextCondition::Team { red: other_red, blu, spectator: other_spectator },
            Some(Team::Blu),
        ),
        spec_condition_texture(
            SpriteContextCondition::Team { red, blu, spectator },
            Some(Team::Spectator),
        ) == spec_condition_texture(
            SpriteContextCondition::Team { red: other_red, blu: other_blu, spectator },
            Some(Team::Spectator),
        ),
        spec_branch_texture(SpriteContextBranch::Texture(id), team) == Some(id@),
{
}

impl SpriteContextBranch {
    /// The texture this branch picks for a thing of team `team` (`None` when
    /// the thing has no team, or the team's branch is missing).
    pub fn evaluate(&self, team: Option<Team>) -> (r: Option<&ResourceId>)
        ensures
            match r {
                Some(id) => spec_branch_texture(*self, team) == Some(id@),
                None => spec_branch_texture(*self, team) is None,
            },
        decreases self,
    {
        match self {
            SpriteContextBranch::Condition(condition) => condition.evaluate(team),
            SpriteContextBranch::Texture(id) => Some(id),
        }
    }
}

impl SpriteContextCondition {
    /// The texture this condition picks for a thing of team `team`.
    pub fn evaluate(&self, team: Option<Team>) -> (r: Option<&ResourceId>)
        ensures
            match r {
                Some(id) => spec_condition_texture(*self, team) == Some(id@),
                None => spec_condition_texture(*self, team) is None,
            },
        decreases self,
    {
        match self {
            SpriteContextCondition::Team { red, blu, spectator } => {
                let chosen = match team {
                    Some(Team::Red) => red,
                    Some(Team::Blu) => blu,
                    Some(Team::Spectator) => spectator,
                    None => {
                        return None;
                    },
                };
                match chosen {
                    Some(branch) => branch.evaluate(team),
                    None => None,
                }
            },
        }
    }
}

impl SpriteContextAsset {
    /// The texture this sprite shows for a thing of team `team`.
    pub fn evaluate(&self, team: Option<Team>) -> (r: Option<&ResourceId>)
        ensures
            match r {
                Some(id) => spec_branch_texture(self.branch, team) == Some(id@),
                None => spec_branch_texture(self.branch, team) is None,
            },
    {
        self.branch.evaluate(team)
    }
}

/// The atlas frame a sprite shows for a thing of team `team`: `None` when
/// its context picks no texture for the team, an error when the texture it
/// picks is not on the atlas.
pub fn sprite_frame<T: Copy>(
    context: &SpriteContextAsset,
    team: Option<Team>,
    atlas: &TextureAtlas<T>,
) -> (r: Result<Option<T>, AssetError>)
    requires
        atlas.wf(),
    ensures
        match spec_branch_texture(context.branch, team) {
            None => r == Ok::<Option<T>, AssetError>(None),
            Some(id) => match r {
                Ok(Some(frame)) => atlas@.contains_key(atlas_key(id)) && frame == atlas@[atlas_key(
                    id,
                )][0],
                Ok(None) => false,
                Err(e) => !atlas@.contains_key(atlas_key(id)) && (e matches AssetError::AtlasLookup(
                    x,
                ) && x@ == id),
            },
        },
{
    match context.evaluate(team) {
        Some(id) => match atlas.lookup_sprite(id) {
            Ok(frame) => Ok(Some(frame)),
            Err(e) => Err(e),
        },
        None => Ok(None),
    }
}

} // verus!
