//! Where the game's assets are kept.

use crate::map::Tile;
use vstd::prelude::*;

verus! {

/// The paths of the assets, relative to the asset directory.
#[derive(Debug, Clone, Copy)]
pub struct AssetPaths {
    pub fira_sans: &'static str,
    pub sound_background: &'static str,
    pub sound_tower_shots: &'static str,
    pub sound_enemy_breach: &'static str,
    pub texture_empty: &'static str,
    pub texture_tower_plot: &'static str,
    pub texture_tower: &'static str,
    pub texture_path: &'static str,
    pub texture_castle: &'static str,
    pub texture_cloud: &'static str,
    pub texture_spawn: &'static str,
}

impl AssetPaths {
    /// The path of the picture for a square.
    pub open spec fn picture(self, tile: Tile) -> &'static str {
        match tile {
            Tile::Empty => self.texture_empty,
            Tile::TowerPlot => self.texture_tower_plot,
            Tile::Tower => self.texture_tower,
            Tile::Path => self.texture_path,
            Tile::Castle => self.texture_castle,
            Tile::Cloud => self.texture_cloud,
            Tile::Spawn => self.texture_spawn,
        }
    }

    /// The path of the picture for a square.
    pub fn texture_for(&self, tile: &Tile) -> (path: &'static str)
        ensures
            path == self.picture(*tile),
    {
        match tile {
            Tile::Empty => self.texture_empty,
            Tile::TowerPlot => self.texture_tower_plot,
            Tile::Tower => self.texture_tower,
            Tile::Path => self.texture_path,
            Tile::Castle => self.texture_castle,
            Tile::Cloud => self.texture_cloud,
            Tile::Spawn => self.texture_spawn,
        }
    }

    /// The paths of the assets that ship with the game.
    pub fn shipped() -> (paths: AssetPaths)
        ensures
            paths.fira_sans@ == "fonts/FiraSans-Bold.ttf"@,
            paths.sound_background@ == "sounds/background.ogg"@,
            paths.sound_tower_shots@ == "sounds/shot.ogg"@,
            paths.sound_enemy_breach@ == "sounds/enemybreach.ogg"@,
            paths.texture_empty@ == "textures/blank64x64.png"@,
            paths.texture_tower_plot@ == "textures/towerplot64x64.png"@,
            paths.texture_tower@ == "textures/tower64x64.png"@,
            paths.texture_path@ == "textures/path64x64.png"@,
            paths.texture_castle@ == "textures/castle64x64.png"@,
            paths.texture_cloud@ == "textures/cloud64x64.png"@,
            paths.texture_spawn@ == "textures/spawn.png"@,
    {
        AssetPaths {
            fira_sans: "fonts/FiraSans-Bold.ttf",
            sound_background: "sounds/background.ogg",
            sound_tower_shots: "sounds/shot.ogg",
            sound_enemy_breach: "sounds/enemybreach.ogg",
            texture_empty: "textures/blank64x64.png",
            texture_tower_plot: "textures/towerplot64x64.png",
            texture_tower: "textures/tower64x64.png",
            texture_path: "textures/path64x64.png",
            texture_castle: "textures/castle64x64.png",
            texture_cloud: "textures/cloud64x64.png",
            texture_spawn: "textures/spawn.png",
        }
    }
}

} // verus!
