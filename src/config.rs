//! Where the player keeps its files, laid out under the user's home
//! directory.
use vstd::prelude::*;
use vstd::string::{StrSliceExecFns, StringExecFns};

verus! {

/// The folders and files the player uses.
pub struct Config {
    pub music_folder: String,
    pub data_folder: String,
    pub database_path: String,
    pub art_map_path: String,
    pub stats_path: String,
}

/// `b` appended to the path `a` as one more component: nothing is put
/// between where `a` is empty or already ends in `/`.
pub open spec fn join_spec(a: Seq<char>, b: Seq<char>) -> Seq<char> {
    if a.len() == 0 || a.last() == '/' {
        a + b
    } else {
        a + seq!['/'] + b
    }
}

/// `b` appended to the path `a` as one more component.
pub fn join(a: &str, b: &str) -> (r: String)
    ensures
        r@ == join_spec(a@, b@),
{
    let n = a.unicode_len();
    let base = a.to_owned();
    if n == 0 || a.get_char(n - 1) == '/' {
        base.concat(b)
    } else {
        proof {
            reveal_strlit("/");
            assert("/"@ =~= seq!['/']);
        }
        base.concat("/").concat(b)
    }
}

/// The folder under the home directory that holds the player's own files.
pub open spec fn data_folder_of(home: Seq<char>) -> Seq<char> {
    join_spec(home, seq!['.', 's', 'o', 'n', 'i', 'k'])
}

/// The configuration file under the home directory.
pub fn config_path(home: &str) -> (r: String)
    ensures
        r@ == join_spec(data_folder_of(home@), seq!['c', 'o', 'n', 'f', 'i', 'g', '.', 't', 'o', 'm', 'l']),
{
    proof {
        reveal_strlit(".sonik");
        reveal_strlit("config.toml");
        assert(".sonik"@ =~= seq!['.', 's', 'o', 'n', 'i', 'k']);
        assert("config.toml"@ =~= seq!['c', 'o', 'n', 'f', 'i', 'g', '.', 't', 'o', 'm', 'l']);
    }
    let data = join(home, ".sonik");
    join(data.as_str(), "config.toml")
}

impl Config {
    /// The layout for the user whose home directory is `home`, with the
    /// music read from `music_location`: the player's files in `.sonik`
    /// under the home directory.
    pub fn with_music_folder(home: &str, music_location: &str) -> (r: Config)
        ensures
            r.music_folder@ == music_location@,
            r.data_folder@ == data_folder_of(home@),
            r.database_path@ == join_spec(data_folder_of(home@), seq!['l', 'i', 'b', 'r', 'a', 'r', 'y', '.', 'd', 'b']),
            r.art_map_path@ == join_spec(data_folder_of(home@), seq!['a', 'r', 't', 'i', 's', 't', 's', '.', 'm', 'a', 'p']),
            r.stats_path@ == join_spec(data_folder_of(home@), seq!['s', 't', 'a', 't', 's', '.', 'd', 'b']),
    {
        proof {
            reveal_strlit(".sonik");
            reveal_strlit("library.db");
            reveal_strlit("artists.map");
            reveal_strlit("stats.db");
            assert(".sonik"@ =~= seq!['.', 's', 'o', 'n', 'i', 'k']);
            assert("library.db"@ =~= seq!['l', 'i', 'b', 'r', 'a', 'r', 'y', '.', 'd', 'b']);
            assert("artists.map"@ =~= seq!['a', 'r', 't', 'i', 's', 't', 's', '.', 'm', 'a', 'p']);
            assert("stats.db"@ =~= seq!['s', 't', 'a', 't', 's', '.', 'd', 'b']);
        }
        let data_folder = join(home, ".sonik");
        Config {
            music_folder: music_location.to_owned(),
            database_path: join(data_folder.as_str(), "library.db"),
            art_map_path: join(data_folder.as_str(), "artists.map"),
            stats_path: join(data_folder.as_str(), "stats.db"),
            data_folder,
        }
    }

    /// The default layout for the user whose home directory is `home`: the
    /// music in `Music` under it.
    pub fn for_home(home: &str) -> (r: Config)
        ensures
            r.music_folder@ == join_spec(home@, seq!['M', 'u', 's', 'i', 'c']),
            r.data_folder@ == data_folder_of(home@),
            r.database_path@ == join_spec(data_folder_of(home@), seq!['l', 'i', 'b', 'r', 'a', 'r', 'y', '.', 'd', 'b']),
            r.art_map_path@ == join_spec(data_folder_of(home@), seq!['a', 'r', 't', 'i', 's', 't', 's', '.', 'm', 'a', 'p']),
            r.stats_path@ == join_spec(data_folder_of(home@), seq!['s', 't', 'a', 't', 's', '.', 'd', 'b']),
    {
        proof {
            reveal_strlit("Music");
            assert("Music"@ =~= seq!['M', 'u', 's', 'i', 'c']);
        }
        let music = join(home, "Music");
        Config::with_music_folder(home, music.as_str())
    }
}

} // verus!
