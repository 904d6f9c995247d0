use vstd::prelude::*;

verus! {

/// One game that packages can be installed for.
#[derive(Debug, Clone)]
pub struct Game {
    /// Unique internal id for the game.
    pub id: String,
    /// Display name of the game.
    pub name: String,
    /// URL of the mod index for the game.
    pub thunderstore_url: String,
    pub steam_folder_name: String,
    pub exe_names: Vec<String>,
    pub data_folder_name: String,
    pub store_platform_metadata: Vec<StorePlatformMetadata>,
    pub instance_type: InstanceType,
    pub package_loader: PackageLoader,
}

/// Where a game is sold, with the store's identifier for it where there is one.
#[derive(Debug, Clone)]
pub enum StorePlatformMetadata {
    Steam { store_identifier: String },
    SteamDirect { store_identifier: String },
    Epic { store_identifier: String },
    Xbox { store_identifier: String },
    Oculus,
    Origin,
    Other,
}

impl StorePlatformMetadata {
    /// The Steam identifier, for the two Steam platforms.
    pub fn steam_or_direct(&self) -> (r: Option<&str>)
        ensures
            r.is_some() <==> (self is Steam || self is SteamDirect),
            self is Steam ==> (r matches Some(s) && s@ == self->Steam_store_identifier@),
            self is SteamDirect ==> (r matches Some(s) && s@ == self->SteamDirect_store_identifier@),
    {
        match self {
            StorePlatformMetadata::Steam { store_identifier } => Some(store_identifier.as_str()),
            StorePlatformMetadata::SteamDirect { store_identifier } => Some(
                store_identifier.as_str(),
            ),
            _ => None,
        }
    }
}

/// The mod loader that a game's packages are written for.
#[derive(Debug, Clone, Copy, PartialEq, Eq, Structural)]
pub enum PackageLoader {
    BepInEx,
    MelonLoader,
    NorthStar,
    GodotML,
    AncientDungeonVR,
    ShimLoader,
    Lovely,
    ReturnOfModding,
    GDWeave,
}

/// The name of a loader: the name of its variant.
pub open spec fn loader_name(l: PackageLoader) -> Seq<char> {
    match l {
        PackageLoader::BepInEx => "BepInEx"@,
        PackageLoader::MelonLoader => "MelonLoader"@,
        PackageLoader::NorthStar => "NorthStar"@,
        PackageLoader::GodotML => "GodotML"@,
        PackageLoader::AncientDungeonVR => "AncientDungeonVR"@,
        PackageLoader::ShimLoader => "ShimLoader"@,
        PackageLoader::Lovely => "Lovely"@,
        PackageLoader::ReturnOfModding => "ReturnOfModding"@,
        PackageLoader::GDWeave => "GDWeave"@,
    }
}

/// Whether two strings hold the same characters.
pub fn str_eq(a: &str, b: &str) -> (r: bool)
    ensures
        r == (a@ == b@),
{
    let n = a.unicode_len();
    if n != b.unicode_len() {
        return false;
    }
    let mut i: usize = 0;
    while i < n
        invariant
            n == a@.len(),
            n == b@.len(),
            i <= n,
            a@.subrange(0, i as int) == b@.subrange(0, i as int),
        decreases n - i,
    {
        if a.get_char(i) != b.get_char(i) {
            return false;
        }
        assert(a@.subrange(0, i + 1) =~= a@.subrange(0, i as int).push(a@[i as int]));
        assert(b@.subrange(0, i + 1) =~= b@.subrange(0, i as int).push(b@[i as int]));
        i = i + 1;
    }
    assert(a@ =~= a@.subrange(0, n as int));
    assert(b@ =~= b@.subrange(0, n as int));
    true
}

impl PackageLoader {
    pub fn as_str(self) -> (r: &'static str)
        ensures
            r@ == loader_name(self),
    {
        match self {
            PackageLoader::BepInEx => "BepInEx",
            PackageLoader::MelonLoader => "MelonLoader",
            PackageLoader::NorthStar => "NorthStar",
            PackageLoader::GodotML => "GodotML",
            PackageLoader::AncientDungeonVR => "AncientDungeonVR",
            PackageLoader::ShimLoader => "ShimLoader",
            PackageLoader::Lovely => "Lovely",
            PackageLoader::ReturnOfModding => "ReturnOfModding",
            PackageLoader::GDWeave => "GDWeave",
        }
    }

    /// The loader whose name is `s`, if any.
    pub fn from_name(s: &str) -> (r: Option<PackageLoader>)
        ensures
            r matches Some(l) ==> loader_name(l) == s@,
            r is None ==> forall|l: PackageLoader| loader_name(l) != s@,
    {
        let all = [
            PackageLoader::BepInEx,
            PackageLoader::MelonLoader,
            PackageLoader::NorthStar,
            PackageLoader::GodotML,
            PackageLoader::AncientDungeonVR,
            PackageLoader::ShimLoader,
            PackageLoader::Lovely,
            PackageLoader::ReturnOfModding,
            PackageLoader::GDWeave,
        ];
        let mut i: usize = 0;
        while i < 9
            invariant
                i <= 9,
                all@ == seq![
                    PackageLoader::BepInEx,
                    PackageLoader::MelonLoader,
                    PackageLoader::NorthStar,
                    PackageLoader::GodotML,
                    PackageLoader::AncientDungeonVR,
                    PackageLoader::ShimLoader,
                    PackageLoader::Lovely,
                    PackageLoader::ReturnOfModding,
                    PackageLoader::GDWeave,
                ],
                forall|j: int| 0 <= j < i ==> loader_name(#[trigger] all@[j]) != s@,
            decreases 9 - i,
        {
            let l = all[i];
            if str_eq(l.as_str(), s) {
                return Some(l);
            }
            i = i + 1;
        }
        assert forall|l: PackageLoader| loader_name(l) != s@ by {
            match l {
                PackageLoader::BepInEx => assert(all@[0] == l),
                PackageLoader::MelonLoader => assert(all@[1] == l),
                PackageLoader::NorthStar => assert(all@[2] == l),
                PackageLoader::GodotML => assert(all@[3] == l),
                PackageLoader::AncientDungeonVR => assert(all@[4] == l),
                PackageLoader::ShimLoader => assert(all@[5] == l),
                PackageLoader::Lovely => assert(all@[6] == l),
                PackageLoader::ReturnOfModding => assert(all@[7] == l),
                PackageLoader::GDWeave => assert(all@[8] == l),
            }
        }
        None
    }
}

/// The kind of game build an instance runs.
#[derive(Debug, Clone, Copy, PartialEq, Eq, Structural)]
pub enum InstanceType {
    Game,
    Server,
}

} // verus!
