//! Constants of the pack. What changes from one version of the pack to the
//! next (Minecraft and NeoForge versions) is read again from `pack.toml` at
//! each launch; what is here only changes with the launcher.

use vstd::prelude::*;

verus! {

/// The pack's URL. Not settable in the launcher (`TURICRAFT_PACK_URL` for
/// trials).
pub const DEFAULT_PACK_URL: &'static str = "https://pack.turi-industries.eu/pack.toml";

/// The server joined by "Play" and asked for its number of players.
pub const SERVER_HOST: &'static str = "play.turi-industries.eu";

pub const SERVER_PORT: u16 = 25565;

/// Mojang's Java runtime for Minecraft 1.21.x (Java 21).
pub const JAVA_COMPONENT: &'static str = "java-runtime-delta";

/// Client ID of Turi Industries' Azure App Registration (approved by
/// Mojang). Not a secret: the public identifier of a client application.
/// A build may give another (see `settings::azure_client_id`).
pub const AZURE_CLIENT_ID: &'static str = "165d4854-4593-4834-ac11-c2389c3ae22c";

pub const LAUNCHER_NAME: &'static str = "turicraft-launcher";

} // verus!
