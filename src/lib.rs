pub mod damage;
pub mod fraction;
pub mod mods;
pub mod weapon;
