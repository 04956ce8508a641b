pub mod geode_installer;
pub mod steam_game_finder;
