//! The meshes of combat mobs: which model and clips a mob id is drawn with.

use crate::text::str_eq;
use vstd::prelude::*;

verus! {

#[derive(Clone, Copy, Debug)]
pub struct CombatMesh {
    pub id: &'static str,
    /// Relative to the asset directory.
    pub source: &'static str,
    pub anim_idle: &'static str,
    pub anim_melee: &'static str,
    pub anim_weapon: Option<&'static str>,
    pub weapon_node: Option<&'static str>,
}

/// The mesh of a mob id, where it has one.
pub open spec fn mesh_of(mob_id: Seq<char>) -> Option<CombatMesh> {
    if mob_id == "orc"@ {
        Some(
            CombatMesh {
                id: "orc",
                source: "monsters/big/Orc.glb",
                anim_idle: "Idle",
                anim_melee: "Punch",
                anim_weapon: Some("Weapon"),
                weapon_node: Some("Orc_Weapon"),
            },
        )
    } else if mob_id == "tribal"@ {
        Some(
            CombatMesh {
                id: "tribal",
                source: "monsters/big/Tribal.glb",
                anim_idle: "Idle",
                anim_melee: "Punch",
                anim_weapon: None,
                weapon_node: None,
            },
        )
    } else if mob_id == "orc_skull"@ {
        Some(
            CombatMesh {
                id: "orc_skull",
                source: "monsters/big/Orc_Skull.glb",
                anim_idle: "Idle",
                anim_melee: "Punch",
                anim_weapon: Some("Weapon"),
                weapon_node: None,
            },
        )
    } else if mob_id == "crawler_spider_wolf"@ || mob_id == "wolf"@ || mob_id == "wolf-spider"@ {
        Some(
            CombatMesh {
                id: "crawler_spider_wolf",
                source: "fauna/wolf/wolf.gltf",
                anim_idle: "Idle",
                anim_melee: "Attack",
                anim_weapon: None,
                weapon_node: None,
            },
        )
    } else {
        None
    }
}

/// The mesh of a mob id, where it has one.
pub fn mesh_spec(mob_id: &str) -> (r: Option<CombatMesh>)
    ensures
        r == mesh_of(mob_id@),
{
    if str_eq(mob_id, "orc") {
        Some(
            CombatMesh {
                id: "orc",
                source: "monsters/big/Orc.glb",
                anim_idle: "Idle",
                anim_melee: "Punch",
                anim_weapon: Some("Weapon"),
                weapon_node: Some("Orc_Weapon"),
            },
        )
    } else if str_eq(mob_id, "tribal") {
        Some(
            CombatMesh {
                id: "tribal",
                source: "monsters/big/Tribal.glb",
                anim_idle: "Idle",
                anim_melee: "Punch",
                anim_weapon: None,
                weapon_node: None,
            },
        )
    } else if str_eq(mob_id, "orc_skull") {
        Some(
            CombatMesh {
                id: "orc_skull",
                source: "monsters/big/Orc_Skull.glb",
                anim_idle: "Idle",
                anim_melee: "Punch",
                anim_weapon: Some("Weapon"),
                weapon_node: None,
            },
        )
    } else if str_eq(mob_id, "crawler_spider_wolf") || str_eq(mob_id, "wolf") || str_eq(
        mob_id,
        "wolf-spider",
    ) {
        Some(
            CombatMesh {
                id: "crawler_spider_wolf",
                source: "fauna/wolf/wolf.gltf",
                anim_idle: "Idle",
                anim_melee: "Attack",
                anim_weapon: None,
                weapon_node: None,
            },
        )
    } else {
        None
    }
}

} // verus!
