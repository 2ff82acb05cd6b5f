//! What is answered to requests for streams and subtitles.

use crate::contracts;
use crate::contracts::{Imdb, Language, OptionsBytes, PlayerData, Subtitle};
use crate::fsonline;
use crate::fsonline::SubtitleFsonline;
use crate::player::keys::M3U8CacheKey;
use crate::playlist;
use crate::text;
use vstd::prelude::*;

verus! {

/// What a player is told about a stream.
#[derive(Debug, Clone, Copy, PartialEq, Eq, Structural)]
pub struct BehaviourHints {
    pub not_web_ready: bool,
}

/// A way to watch a title.
#[derive(Debug, Clone)]
pub struct Stream {
    pub name: &'static str,
    pub title: String,
    pub url: Option<String>,
    pub behavior_hints: Option<BehaviourHints>,
    pub external_url: Option<String>,
    pub subtitles: Vec<Subtitle>,
}

/// The ways to watch a title.
#[derive(Debug, Clone)]
pub struct SeriesResponse {
    pub streams: Vec<Stream>,
}

/// A subtitle that is offered: its id, its address and its language.
pub open spec fn subtitle_view(subtitle: Subtitle) -> (Seq<char>, Seq<char>, Language) {
    (subtitle.id@, subtitle.url@, subtitle.lang)
}

/// The subtitles that are offered.
pub open spec fn subtitle_list(subtitles: Seq<Subtitle>) -> Seq<(Seq<char>, Seq<char>, Language)> {
    subtitles.map_values(|s: Subtitle| subtitle_view(s))
}

/// A way to watch a title, in plain values.
pub struct StreamModel {
    pub name: Seq<char>,
    pub title: Seq<char>,
    pub url: Option<Seq<char>>,
    pub behavior_hints: Option<BehaviourHints>,
    pub external_url: Option<Seq<char>>,
    pub subtitles: Seq<(Seq<char>, Seq<char>, Language)>,
}

impl View for Stream {
    type V = StreamModel;

    open spec fn view(&self) -> StreamModel {
        StreamModel {
            name: self.name@,
            title: self.title@,
            url: fsonline::optional_text(self.url),
            behavior_hints: self.behavior_hints,
            external_url: fsonline::optional_text(self.external_url),
            subtitles: subtitle_list(self.subtitles@),
        }
    }
}

/// The streams in plain values.
pub open spec fn stream_views(streams: Seq<Stream>) -> Seq<StreamModel> {
    streams.map_values(|s: Stream| s@)
}

/// The subtitles of a player as they are offered.
pub open spec fn offered_subtitles(
    uses_https: bool,
    host: Seq<char>,
    imdb: Imdb,
    server_name: Seq<char>,
    subtitles: Seq<(Seq<char>, Language)>,
) -> Seq<(Seq<char>, Seq<char>, Language)> {
    subtitles.map_values(
        |s: (Seq<char>, Language)|
            (
                contracts::subtitle_id(server_name, s.0),
                contracts::subtitle_address(uses_https, host, s, imdb),
                s.1,
            ),
    )
}

/// Offers the subtitles of a player.
fn offer_subtitles(
    uses_https: bool,
    host: &str,
    imdb: Imdb,
    server_name: &str,
    subtitles: &Vec<SubtitleFsonline>,
) -> (r: Vec<Subtitle>)
    ensures
        subtitle_list(r@) == offered_subtitles(
            uses_https,
            host@,
            imdb,
            server_name@,
            fsonline::subtitle_views(subtitles@),
        ),
{
    let ghost views = fsonline::subtitle_views(subtitles@);
    let ghost all = offered_subtitles(
        uses_https,
        host@,
        imdb,
        server_name@,
        views,
    );
    let mut out: Vec<Subtitle> = Vec::new();
    assert(subtitle_list(out@) =~= all.take(0));
    for i in 0..subtitles.len()
        invariant
            views == fsonline::subtitle_views(subtitles@),
            all == offered_subtitles(
                uses_https,
                host@,
                imdb,
                server_name@,
                views,
            ),
            subtitle_list(out@) == all.take(i as int),
    {
        assert(views[i as int] == subtitles@[i as int]@);
        let ghost before = subtitle_list(out@);
        let subtitle = Subtitle::new(
            uses_https,
            host,
            &subtitles[i],
            imdb,
            server_name,
        );
        assert(subtitle_view(subtitle) == all[i as int]);
        out.push(subtitle);
        assert(subtitle_list(out@) =~= before.push(subtitle_view(subtitle)));
        assert(subtitle_list(out@) =~= all.take(i + 1));
    }
    assert(all.take(all.len() as int) =~= all);
    out
}

/// Watching from where the video was found.
pub open spec fn original_stream(
    uses_https: bool,
    host: Seq<char>,
    imdb: Imdb,
    server_name: Seq<char>,
    subtitles: Seq<(Seq<char>, Language)>,
    video: Seq<char>,
) -> StreamModel {
    StreamModel {
        name: "FSonline"@,
        title: server_name,
        url: Some(video),
        behavior_hints: Some(BehaviourHints { not_web_ready: true }),
        external_url: None,
        subtitles: offered_subtitles(uses_https, host, imdb, server_name, subtitles),
    }
}

/// Watching through this server.
pub open spec fn local_stream(
    uses_https: bool,
    host: Seq<char>,
    imdb: Imdb,
    server_name: Seq<char>,
    subtitles: Seq<(Seq<char>, Language)>,
) -> StreamModel {
    StreamModel {
        name: "FSonline local player"@,
        title: server_name,
        url: Some(
            contracts::api_base(uses_https, host) + server_name + "/"@
                + contracts::imdb_text(imdb) + "/playlist.m3u8"@,
        ),
        behavior_hints: Some(BehaviourHints { not_web_ready: true }),
        external_url: None,
        subtitles: offered_subtitles(uses_https, host, imdb, server_name, subtitles),
    }
}

/// Watching a player in the browser.
pub open spec fn browser_stream(external_url: Seq<char>, server_name: Seq<char>) -> StreamModel {
    StreamModel {
        name: "FSonline browser player"@,
        title: server_name + " Server\nThis will play in the browser"@,
        url: None,
        behavior_hints: None,
        external_url: Some(external_url),
        subtitles: Seq::empty(),
    }
}

/// Watching on the page of the title.
pub open spec fn page_stream(external_url: Seq<char>) -> StreamModel {
    StreamModel {
        name: "FSonline browser"@,
        title: "The fsonline webpage"@,
        url: None,
        behavior_hints: None,
        external_url: Some(external_url),
        subtitles: Seq::empty(),
    }
}

impl Stream {
    /// Offers to watch from where the video of a player was found.
    pub fn url(
        url: String,
        server_name: String,
        subtitles: &Vec<SubtitleFsonline>,
        uses_https: bool,
        host: &str,
        imdb: Imdb,
    ) -> (r: Stream)
        ensures
            r@ == original_stream(
                uses_https,
                host@,
                imdb,
                server_name@,
                fsonline::subtitle_views(subtitles@),
                url@,
            ),
    {
        let subtitles = offer_subtitles(uses_https, host, imdb, server_name.as_str(), subtitles);
        Stream {
            name: "FSonline",
            title: server_name,
            url: Some(url),
            behavior_hints: Some(BehaviourHints { not_web_ready: true }),
            external_url: None,
            subtitles,
        }
    }

    /// Offers to watch the video of a player through this server.
    pub fn local_player_url(
        server_name: String,
        subtitles: &Vec<SubtitleFsonline>,
        uses_https: bool,
        host: &str,
        imdb: Imdb,
    ) -> (r: Stream)
        ensures
            r@ == local_stream(
                uses_https,
                host@,
                imdb,
                server_name@,
                fsonline::subtitle_views(subtitles@),
            ),
    {
        let subtitles = offer_subtitles(uses_https, host, imdb, server_name.as_str(), subtitles);
        let key = M3U8CacheKey { imdb, server_name };
        Stream {
            name: "FSonline local player",
            url: Some(playlist::local_player_url(uses_https, host, &key)),
            title: key.server_name,
            behavior_hints: Some(BehaviourHints { not_web_ready: true }),
            external_url: None,
            subtitles,
        }
    }

    /// Offers to watch a player in the browser.
    pub fn external_url(external_url: String, server_name: &str) -> (r: Stream)
        ensures
            r@ == browser_stream(external_url@, server_name@),
    {
        let mut title = server_name.to_owned();
        title.append(" Server\nThis will play in the browser");
        let r = Stream {
            name: "FSonline browser player",
            title,
            url: None,
            behavior_hints: None,
            external_url: Some(external_url),
            subtitles: Vec::new(),
        };
        assert(subtitle_list(r.subtitles@) =~= Seq::empty());
        r
    }

    /// Offers to watch on the page of the title.
    pub fn fsonline_url(external_url: String) -> (r: Stream)
        ensures
            r@ == page_stream(external_url@),
    {
        let r = Stream {
            name: "FSonline browser",
            title: "The fsonline webpage".to_owned(),
            url: None,
            behavior_hints: None,
            external_url: Some(external_url),
            subtitles: Vec::new(),
        };
        assert(subtitle_list(r.subtitles@) =~= Seq::empty());
        r
    }
}

/// Which streams of a player are offered.
#[derive(Debug, Clone, Copy, PartialEq, Eq, Structural)]
pub enum StreamKind {
    /// Those that are watched through this server.
    Local,
    /// Those that are watched where they were found.
    Original,
    /// Those that are watched in the browser.
    Browser,
}

/// The stream of a kind that a player gives; without a video only the browser can show it.
pub open spec fn player_stream(
    kind: StreamKind,
    uses_https: bool,
    host: Seq<char>,
    imdb: Imdb,
    player: PlayerData,
) -> Option<StreamModel> {
    let name = player.server_name@;
    let subtitles = fsonline::subtitle_views(player.data.subtitles@);
    match (kind, player.data.video) {
        (StreamKind::Local, Some(_)) => Some(
            local_stream(uses_https, host, imdb, name, subtitles),
        ),
        (StreamKind::Original, Some(video)) => Some(
            original_stream(uses_https, host, imdb, name, subtitles, video@),
        ),
        (StreamKind::Browser, _) => Some(browser_stream(player.iframe_player@, name)),
        _ => None,
    }
}

/// The streams of a kind that some players give, in order.
pub open spec fn player_streams(
    kind: StreamKind,
    uses_https: bool,
    host: Seq<char>,
    imdb: Imdb,
    players: Seq<PlayerData>,
) -> Seq<StreamModel>
    decreases players.len(),
{
    if players.len() == 0 {
        Seq::empty()
    } else {
        let before = player_streams(kind, uses_https, host, imdb, players.drop_last());
        match player_stream(kind, uses_https, host, imdb, players.last()) {
            Some(stream) => before.push(stream),
            None => before,
        }
    }
}

/// The streams of a kind, if that kind is asked for.
pub open spec fn asked_streams(
    options: OptionsBytes,
    flag: u8,
    kind: StreamKind,
    uses_https: bool,
    host: Seq<char>,
    imdb: Imdb,
    players: Seq<PlayerData>,
) -> Seq<StreamModel> {
    if contracts::flag_set(options.bits, flag) {
        player_streams(kind, uses_https, host, imdb, players)
    } else {
        Seq::empty()
    }
}

/// The streams of a title: through this server, on the page of the title, from where the
/// videos were found, and in the browser, as far as each is asked for.
pub open spec fn title_streams(
    players: Seq<PlayerData>,
    fsonline_url: Seq<char>,
    options: OptionsBytes,
    uses_https: bool,
    host: Seq<char>,
    imdb: Imdb,
) -> Seq<StreamModel> {
    let page = if contracts::flag_set(options.bits, contracts::FSONLINE_LINK) {
        seq![page_stream(fsonline_url)]
    } else {
        Seq::empty()
    };
    asked_streams(
        options,
        contracts::LOCAL_PLAYER,
        StreamKind::Local,
        uses_https,
        host,
        imdb,
        players,
    ) + page + asked_streams(
        options,
        contracts::SHOW_ORIGINAL_PLAYER,
        StreamKind::Original,
        uses_https,
        host,
        imdb,
        players,
    ) + asked_streams(
        options,
        contracts::BROWSER_PLAYERS,
        StreamKind::Browser,
        uses_https,
        host,
        imdb,
        players,
    )
}

fn stream_of(
    kind: StreamKind,
    uses_https: bool,
    host: &str,
    imdb: Imdb,
    player: &PlayerData,
) -> (r: Option<Stream>)
    ensures
        match player_stream(kind, uses_https, host@, imdb, *player) {
            Some(stream) => r matches Some(made) && made@ == stream,
            None => r is None,
        },
{
    match (kind, &player.data.video) {
        (StreamKind::Local, Some(_)) => Some(
            Stream::local_player_url(
                player.server_name.clone(),
                &player.data.subtitles,
                uses_https,
                host,
                imdb,
            ),
        ),
        (StreamKind::Original, Some(video)) => Some(
            Stream::url(
                video.clone(),
                player.server_name.clone(),
                &player.data.subtitles,
                uses_https,
                host,
                imdb,
            ),
        ),
        (StreamKind::Browser, _) => Some(
            Stream::external_url(player.iframe_player.clone(), player.server_name.as_str()),
        ),
        _ => None,
    }
}

fn push_streams(
    streams: &mut Vec<Stream>,
    kind: StreamKind,
    uses_https: bool,
    host: &str,
    imdb: Imdb,
    players: &Vec<PlayerData>,
)
    ensures
        stream_views(final(streams)@) == stream_views(old(streams)@) + player_streams(
            kind,
            uses_https,
            host@,
            imdb,
            players@,
        ),
{
    let ghost before = stream_views(streams@);
    assert(before =~= before + player_streams(kind, uses_https, host@, imdb, players@.take(0)));
    for i in 0..players.len()
        invariant
            stream_views(streams@) == before + player_streams(
                kind,
                uses_https,
                host@,
                imdb,
                players@.take(i as int),
            ),
    {
        assert(players@.take(i + 1).drop_last() =~= players@.take(i as int));
        let ghost so_far = stream_views(streams@);
        match stream_of(kind, uses_https, host, imdb, &players[i]) {
            Some(stream) => {
                streams.push(stream);
                assert(stream_views(streams@) =~= so_far.push(stream@));
            },
            None => {},
        }
        assert(stream_views(streams@) =~= before + player_streams(
            kind,
            uses_https,
            host@,
            imdb,
            players@.take(i + 1),
        ));
    }
    assert(players@.take(players@.len() as int) =~= players@);
}

/// Answers a request for the streams of a title whose players are known.
pub fn series_streams(
    players: &Vec<PlayerData>,
    fsonline_url: String,
    options: OptionsBytes,
    uses_https: bool,
    host: &str,
    imdb: Imdb,
) -> (r: SeriesResponse)
    ensures
        stream_views(r.streams@) == title_streams(
            players@,
            fsonline_url@,
            options,
            uses_https,
            host@,
            imdb,
        ),
{
    let mut streams: Vec<Stream> = Vec::new();
    assert(stream_views(streams@) =~= Seq::empty());
    if options.contains(contracts::LOCAL_PLAYER) {
        push_streams(&mut streams, StreamKind::Local, uses_https, host, imdb, players);
    }
    let ghost local = stream_views(streams@);
    if options.contains(contracts::FSONLINE_LINK) {
        let stream = Stream::fsonline_url(fsonline_url);
        streams.push(stream);
        assert(stream_views(streams@) =~= local + seq![stream@]);
    }
    if options.contains(contracts::SHOW_ORIGINAL_PLAYER) {
        push_streams(&mut streams, StreamKind::Original, uses_https, host, imdb, players);
    }
    if options.contains(contracts::BROWSER_PLAYERS) {
        push_streams(&mut streams, StreamKind::Browser, uses_https, host, imdb, players);
    }
    assert(stream_views(streams@) =~= title_streams(
        players@,
        fsonline_url@,
        options,
        uses_https,
        host@,
        imdb,
    ));
    SeriesResponse { streams }
}

/// The servers among some players on which a video was found.
pub open spec fn servers_with_video(players: Seq<PlayerData>) -> Seq<Seq<char>>
    decreases players.len(),
{
    if players.len() == 0 {
        Seq::empty()
    } else if players.last().data.video is Some {
        servers_with_video(players.drop_last()).push(players.last().server_name@)
    } else {
        servers_with_video(players.drop_last())
    }
}

/// The servers whose videos are prepared when the streams of a title were asked for.
pub fn servers_to_prepare(players: &Vec<PlayerData>) -> (r: Vec<String>)
    ensures
        text::texts(r@) == servers_with_video(players@),
{
    let mut servers: Vec<String> = Vec::new();
    assert(text::texts(servers@) =~= servers_with_video(players@.take(0)));
    for i in 0..players.len()
        invariant
            text::texts(servers@) == servers_with_video(players@.take(i as int)),
    {
        assert(players@.take(i + 1).drop_last() =~= players@.take(i as int));
        if players[i].data.video.is_some() {
            let ghost before = text::texts(servers@);
            servers.push(players[i].server_name.clone());
            assert(text::texts(servers@) =~= before.push(players@[i as int].server_name@));
        }
    }
    assert(players@.take(players@.len() as int) =~= players@);
    servers
}

/// The subtitles of some players as they are offered, in order.
pub open spec fn title_subtitles(
    uses_https: bool,
    host: Seq<char>,
    imdb: Imdb,
    players: Seq<PlayerData>,
) -> Seq<(Seq<char>, Seq<char>, Language)>
    decreases players.len(),
{
    if players.len() == 0 {
        Seq::empty()
    } else {
        title_subtitles(uses_https, host, imdb, players.drop_last()) + offered_subtitles(
            uses_https,
            host,
            imdb,
            players.last().server_name@,
            fsonline::subtitle_views(players.last().data.subtitles@),
        )
    }
}

/// Answers a request for the subtitles of a title whose players are known.
pub fn subtitles(players: &Vec<PlayerData>, uses_https: bool, host: &str, imdb: Imdb) -> (r: Vec<
    Subtitle,
>)
    ensures
        subtitle_list(r@) == title_subtitles(uses_https, host@, imdb, players@),
{
    let mut out: Vec<Subtitle> = Vec::new();
    assert(subtitle_list(out@) =~= title_subtitles(uses_https, host@, imdb, players@.take(0)));
    for i in 0..players.len()
        invariant
            subtitle_list(out@) == title_subtitles(uses_https, host@, imdb, players@.take(i as int)),
    {
        assert(players@.take(i + 1).drop_last() =~= players@.take(i as int));
        let ghost before = out@;
        let mut more = offer_subtitles(
            uses_https,
            host,
            imdb,
            players[i].server_name.as_str(),
            &players[i].data.subtitles,
        );
        let ghost added = more@;
        out.append(&mut more);
        assert(subtitle_list(out@) =~= subtitle_list(before) + subtitle_list(added));
    }
    assert(players@.take(players@.len() as int) =~= players@);
    out
}

/// No subtitle has the digest that was asked for.
#[derive(Debug, Clone, Copy, PartialEq, Eq, Structural)]
pub struct SubtitleNotFound;

impl SubtitleNotFound {
    pub fn message(&self) -> (r: String)
        ensures
            r@ == "Failed to find the language requested"@,
    {
        "Failed to find the language requested".to_owned()
    }
}

/// The addresses of the subtitles of some players, in order.
pub open spec fn subtitle_urls(players: Seq<PlayerData>) -> Seq<Seq<char>>
    decreases players.len(),
{
    if players.len() == 0 {
        Seq::empty()
    } else {
        let last = fsonline::subtitle_views(players.last().data.subtitles@);
        subtitle_urls(players.drop_last()) + last.map_values(|s: (Seq<char>, Language)| s.0)
    }
}

/// Whether no address has a digest.
pub open spec fn none_has(urls: Seq<Seq<char>>, md5: Seq<char>) -> bool {
    forall|j: int| 0 <= j < urls.len() ==> fsonline::url_digest(#[trigger] urls[j]) != md5
}

/// Where the subtitle with a digest really is: the first one that has it.
pub fn find_subtitle(players: &Vec<PlayerData>, md5: &str) -> (r: Result<String, SubtitleNotFound>)
    ensures
        match r {
            Ok(url) => fsonline::url_digest(url@) == md5@ && exists|i: int|
                0 <= i < subtitle_urls(players@).len() && #[trigger] subtitle_urls(players@)[i]
                    == url@ && none_has(subtitle_urls(players@).take(i), md5@),
            Err(_) => none_has(subtitle_urls(players@), md5@),
        },
{
    let ghost all = subtitle_urls(players@);
    for i in 0..players.len()
        invariant
            all == subtitle_urls(players@),
            none_has(subtitle_urls(players@.take(i as int)), md5@),
    {
        let ghost earlier = subtitle_urls(players@.take(i as int));
        let ghost here = fsonline::subtitle_views(players@[i as int].data.subtitles@).map_values(
            |s: (Seq<char>, Language)| s.0,
        );
        proof {
            assert(players@.take(i + 1).drop_last() =~= players@.take(i as int));
            assert(subtitle_urls(players@.take(i + 1)) =~= earlier + here);
            urls_of_prefix(players@, i + 1);
        }
        let listed = &players[i].data.subtitles;
        for k in 0..listed.len()
            invariant
                listed@ == players@[i as int].data.subtitles@,
                here == fsonline::subtitle_views(listed@).map_values(
                    |s: (Seq<char>, Language)| s.0,
                ),
                all == subtitle_urls(players@),
                (earlier + here).is_prefix_of(all),
                none_has(earlier, md5@),
                forall|j: int|
                    0 <= j < k ==> fsonline::url_digest(#[trigger] here[j]) != md5@,
        {
            assert(here[k as int] == listed@[k as int].url@);
            let digest = listed[k].md5();
            if text::str_eq(digest.as_str(), md5) {
                proof {
                    let at = earlier.len() + k;
                    let joined = earlier + here;
                    assert(joined[at] == here[k as int]);
                    assert(all[at] == joined[at]);
                    let front = all.take(at);
                    assert forall|j: int| 0 <= j < at implies fsonline::url_digest(
                        #[trigger] front[j],
                    ) != md5@ by {
                        assert(front[j] == joined[j]);
                        if j < earlier.len() {
                            assert(joined[j] == earlier[j]);
                        } else {
                            assert(joined[j] == here[j - earlier.len()]);
                        }
                    }
                }
                return Ok(listed[k].url.clone());
            }
        }
        proof {
            let joined = earlier + here;
            assert forall|j: int| 0 <= j < joined.len() implies fsonline::url_digest(
                #[trigger] joined[j],
            ) != md5@ by {
                if j < earlier.len() {
                    assert(joined[j] == earlier[j]);
                } else {
                    assert(joined[j] == here[j - earlier.len()]);
                }
            }
        }
    }
    assert(players@.take(players@.len() as int) =~= players@);
    Err(SubtitleNotFound)
}

proof fn urls_of_prefix(players: Seq<PlayerData>, n: int)
    requires
        0 <= n <= players.len(),
    ensures
        subtitle_urls(players.take(n)).is_prefix_of(subtitle_urls(players)),
    decreases players.len(),
{
    if n == players.len() {
        assert(players.take(n) =~= players);
    } else {
        urls_of_prefix(players.drop_last(), n);
        assert(players.drop_last().take(n) =~= players.take(n));
        let shorter = subtitle_urls(players.drop_last());
        assert(shorter.is_prefix_of(subtitle_urls(players)));
        let part = subtitle_urls(players.take(n));
        assert(part =~= subtitle_urls(players).subrange(0, part.len() as int)) by {
            assert(part =~= shorter.subrange(0, part.len() as int));
        }
    }
}

/// The digest of every subtitle of a title leads to a subtitle of it with that digest.
pub proof fn offered_digest_is_found(players: Seq<PlayerData>, i: int)
    requires
        0 <= i < subtitle_urls(players).len(),
    ensures
        !none_has(subtitle_urls(players), fsonline::url_digest(subtitle_urls(players)[i])),
{
}

/// The subtitles that were found on the players of a title, one after the other: the server, where
/// each really is, and its language.
pub open spec fn found_subtitles(players: Seq<PlayerData>) -> Seq<(Seq<char>, Seq<char>, Language)> {
    players.map_values(
        |p: PlayerData|
            p.data.subtitles@.map_values(
                |s: SubtitleFsonline| (p.server_name@, s.url@, s.lang),
            ),
    ).flatten()
}

/// Whether `offered` is how a subtitle is offered that was found on a server: with an address of
/// this server that names the title and leads to where the subtitle really is, in its language,
/// and with an id that names the server and that place.
pub open spec fn offers(
    offered: (Seq<char>, Seq<char>, Language),
    uses_https: bool,
    host: Seq<char>,
    imdb: Imdb,
    found: (Seq<char>, Seq<char>, Language),
) -> bool {
    &&& contracts::leads_to_subtitle(offered.1, uses_https, host, imdb, found.1)
    &&& offered.2 == found.2
    &&& offered.0 == "FSonline "@ + found.0 + " "@ + found.1
}

/// The subtitles of a player are all offered, in order, for the title that was asked for.
pub proof fn player_subtitles_are_offered(
    uses_https: bool,
    host: Seq<char>,
    imdb: Imdb,
    player: PlayerData,
)
    ensures
        ({
            let offered = offered_subtitles(
                uses_https,
                host,
                imdb,
                player.server_name@,
                fsonline::subtitle_views(player.data.subtitles@),
            );
            &&& offered.len() == player.data.subtitles@.len()
            &&& forall|i: int|
                0 <= i < offered.len() ==> offers(
                    #[trigger] offered[i],
                    uses_https,
                    host,
                    imdb,
                    (
                        player.server_name@,
                        player.data.subtitles@[i].url@,
                        player.data.subtitles@[i].lang,
                    ),
                )
        }),
{
    let views = fsonline::subtitle_views(player.data.subtitles@);
    let offered = offered_subtitles(uses_https, host, imdb, player.server_name@, views);
    assert forall|i: int| 0 <= i < offered.len() implies offers(
        #[trigger] offered[i],
        uses_https,
        host,
        imdb,
        (player.server_name@, player.data.subtitles@[i].url@, player.data.subtitles@[i].lang),
    ) by {
        contracts::subtitle_address_names_its_title(uses_https, host, views[i], imdb);
    }
}

/// Who asks for the subtitles of a title is offered each one that was found on any player, in
/// order, under an address that names that title with its episode.
pub proof fn every_subtitle_is_offered(
    uses_https: bool,
    host: Seq<char>,
    imdb: Imdb,
    players: Seq<PlayerData>,
)
    ensures
        title_subtitles(uses_https, host, imdb, players).len() == found_subtitles(players).len(),
        forall|i: int|
            0 <= i < found_subtitles(players).len() ==> offers(
                #[trigger] title_subtitles(uses_https, host, imdb, players)[i],
                uses_https,
                host,
                imdb,
                found_subtitles(players)[i],
            ),
    decreases players.len(),
{
    let listed = |p: PlayerData|
        p.data.subtitles@.map_values(|s: SubtitleFsonline| (p.server_name@, s.url@, s.lang));
    let all = title_subtitles(uses_https, host, imdb, players);
    let found = found_subtitles(players);
    if players.len() == 0 {
        assert(players.map_values(listed).len() == 0);
    } else {
        let before = players.drop_last();
        let last = players.last();
        every_subtitle_is_offered(uses_https, host, imdb, before);
        player_subtitles_are_offered(uses_https, host, imdb, last);
        before.map_values(listed).lemma_flatten_push(listed(last));
        assert(players.map_values(listed) =~= before.map_values(listed).push(listed(last)));
        assert(found == found_subtitles(before) + listed(last));
        let n = found_subtitles(before).len();
        let here = offered_subtitles(
            uses_https,
            host,
            imdb,
            last.server_name@,
            fsonline::subtitle_views(last.data.subtitles@),
        );
        assert forall|i: int| 0 <= i < found.len() implies offers(
            #[trigger] all[i],
            uses_https,
            host,
            imdb,
            found[i],
        ) by {
            if i < n {
                assert(all[i] == title_subtitles(uses_https, host, imdb, before)[i]);
                assert(found[i] == found_subtitles(before)[i]);
            } else {
                assert(all[i] == here[i - n]);
                assert(found[i] == listed(last)[i - n]);
            }
        }
    }
}

/// What is searched for a digest are the places of all subtitles that were found, in order.
pub proof fn every_subtitle_is_searched(players: Seq<PlayerData>)
    ensures
        subtitle_urls(players) == found_subtitles(players).map_values(
            |s: (Seq<char>, Seq<char>, Language)| s.1,
        ),
    decreases players.len(),
{
    let listed = |p: PlayerData|
        p.data.subtitles@.map_values(|s: SubtitleFsonline| (p.server_name@, s.url@, s.lang));
    let place = |s: (Seq<char>, Seq<char>, Language)| s.1;
    if players.len() == 0 {
        assert(players.map_values(listed).len() == 0);
        assert(subtitle_urls(players) =~= found_subtitles(players).map_values(place));
    } else {
        let before = players.drop_last();
        let last = players.last();
        every_subtitle_is_searched(before);
        before.map_values(listed).lemma_flatten_push(listed(last));
        assert(players.map_values(listed) =~= before.map_values(listed).push(listed(last)));
        assert(found_subtitles(players) == found_subtitles(before) + listed(last));
        assert(subtitle_urls(players) =~= found_subtitles(players).map_values(place));
    }
}

/// Whether an address is one under which this server plays the video of a title on a server: it
/// names both, and what it names of the title is read as the title.
pub open spec fn leads_to_playlist(
    address: Seq<char>,
    uses_https: bool,
    host: Seq<char>,
    imdb: Imdb,
    server_name: Seq<char>,
) -> bool {
    let scheme = if uses_https {
        "https://"@
    } else {
        "http://"@
    };
    exists|title: Seq<char>|
        #![trigger contracts::parsed_imdb(title)]
        contracts::parsed_imdb(title) == Some(imdb) && address == scheme + host + "/v1/api/"@
            + server_name + "/"@ + title + "/playlist.m3u8"@
}

/// Whether a stream plays a player in some way: through this server, from where its video was
/// found, or in the browser. Unless the browser plays it, it comes with all subtitles of the
/// player.
pub open spec fn plays(
    stream: StreamModel,
    kind: StreamKind,
    uses_https: bool,
    host: Seq<char>,
    imdb: Imdb,
    player: PlayerData,
) -> bool {
    let found = player.data.subtitles@;
    &&& match kind {
        StreamKind::Local => {
            &&& stream.url matches Some(address) && leads_to_playlist(
                address,
                uses_https,
                host,
                imdb,
                player.server_name@,
            )
            &&& stream.name == "FSonline local player"@
        },
        StreamKind::Original => {
            &&& player.data.video matches Some(video) && stream.url == Some(video@)
            &&& stream.name == "FSonline"@
        },
        StreamKind::Browser => {
            &&& stream.url is None
            &&& stream.name == "FSonline browser player"@
        },
    }
    &&& if kind is Browser {
        &&& stream.external_url == Some(player.iframe_player@)
        &&& stream.behavior_hints is None
        &&& stream.subtitles.len() == 0
        &&& player.server_name@.is_prefix_of(stream.title)
    } else {
        &&& stream.external_url is None
        &&& stream.behavior_hints == Some(BehaviourHints { not_web_ready: true })
        &&& stream.title == player.server_name@
        &&& stream.subtitles.len() == found.len()
        &&& forall|i: int|
            0 <= i < found.len() ==> offers(
                #[trigger] stream.subtitles[i],
                uses_https,
                host,
                imdb,
                (player.server_name@, found[i].url@, found[i].lang),
            )
    }
}

/// The stream of a player plays that player, for the title that was asked for.
pub proof fn stream_plays_its_player(
    kind: StreamKind,
    uses_https: bool,
    host: Seq<char>,
    imdb: Imdb,
    player: PlayerData,
)
    ensures
        player_stream(kind, uses_https, host, imdb, player) is Some <==> kind is Browser
            || player.data.video is Some,
        player_stream(kind, uses_https, host, imdb, player) matches Some(stream) ==> plays(
            stream,
            kind,
            uses_https,
            host,
            imdb,
            player,
        ),
{
    player_subtitles_are_offered(uses_https, host, imdb, player);
    match player_stream(kind, uses_https, host, imdb, player) {
        Some(stream) => {
            if kind is Local {
                reveal_strlit("https");
                reveal_strlit("http");
                reveal_strlit("https://");
                reveal_strlit("http://");
                reveal_strlit("://");
                let title = contracts::imdb_text(imdb);
                contracts::imdb_text_round_trip(imdb);
                let scheme = if uses_https {
                    "https://"@
                } else {
                    "http://"@
                };
                assert(contracts::api_base(uses_https, host) =~= scheme + host + "/v1/api/"@);
                assert(contracts::parsed_imdb(title) == Some(imdb));
                assert(leads_to_playlist(
                    stream.url->0,
                    uses_https,
                    host,
                    imdb,
                    player.server_name@,
                ));
            }
        },
        None => {},
    }
}

/// Every player with a video gives a stream through this server and one from where the video was
/// found, and every player one in the browser, in the order of the players.
pub proof fn every_player_gives_its_streams(
    kind: StreamKind,
    uses_https: bool,
    host: Seq<char>,
    imdb: Imdb,
    players: Seq<PlayerData>,
)
    ensures
        ({
            let playing = players.filter(|p: PlayerData| kind is Browser || p.data.video is Some);
            let streams = player_streams(kind, uses_https, host, imdb, players);
            &&& streams.len() == playing.len()
            &&& forall|i: int|
                0 <= i < playing.len() ==> plays(
                    #[trigger] streams[i],
                    kind,
                    uses_https,
                    host,
                    imdb,
                    playing[i],
                )
        }),
    decreases players.len(),
{
    reveal(Seq::filter);
    let can_play = |p: PlayerData| kind is Browser || p.data.video is Some;
    if players.len() > 0 {
        let before = players.drop_last();
        let last = players.last();
        every_player_gives_its_streams(kind, uses_https, host, imdb, before);
        stream_plays_its_player(kind, uses_https, host, imdb, last);
        let shorter = player_streams(kind, uses_https, host, imdb, before);
        let streams = player_streams(kind, uses_https, host, imdb, players);
        let playing = players.filter(can_play);
        assert forall|i: int| 0 <= i < playing.len() implies plays(
            #[trigger] streams[i],
            kind,
            uses_https,
            host,
            imdb,
            playing[i],
        ) by {
            if i < shorter.len() {
                assert(streams[i] == shorter[i]);
                assert(playing[i] == before.filter(can_play)[i]);
            }
        }
    }
}

/// Of the kinds of streams, just those are there that were asked for: through this server, on the
/// page of the title, from where the videos were found, and in the browser, in this order.
pub proof fn streams_are_those_asked_for(
    players: Seq<PlayerData>,
    fsonline_url: Seq<char>,
    options: OptionsBytes,
    uses_https: bool,
    host: Seq<char>,
    imdb: Imdb,
)
    ensures
        ({
            let bits = options.bits;
            let local = player_streams(StreamKind::Local, uses_https, host, imdb, players);
            let original = player_streams(StreamKind::Original, uses_https, host, imdb, players);
            let browser = player_streams(StreamKind::Browser, uses_https, host, imdb, players);
            let streams = title_streams(players, fsonline_url, options, uses_https, host, imdb);
            let a: int = if bits & 1 == 1 {
                local.len() as int
            } else {
                0
            };
            let b: int = if bits & 8 == 8 {
                a + 1
            } else {
                a
            };
            let c: int = if bits & 2 == 2 {
                b + original.len()
            } else {
                b
            };
            let d: int = if bits & 4 == 4 {
                c + browser.len()
            } else {
                c
            };
            &&& streams.len() == d
            &&& bits & 1 == 1 ==> streams.subrange(0, a) == local
            &&& bits & 8 == 8 ==> streams[a].url is None && streams[a].external_url == Some(
                fsonline_url,
            ) && streams[a].subtitles.len() == 0
            &&& bits & 2 == 2 ==> streams.subrange(b, c) == original
            &&& bits & 4 == 4 ==> streams.subrange(c, d) == browser
        }),
{
    let bits = options.bits;
    let local = player_streams(StreamKind::Local, uses_https, host, imdb, players);
    let original = player_streams(StreamKind::Original, uses_https, host, imdb, players);
    let browser = player_streams(StreamKind::Browser, uses_https, host, imdb, players);
    let streams = title_streams(players, fsonline_url, options, uses_https, host, imdb);
    let a: int = if bits & 1 == 1 {
        local.len() as int
    } else {
        0
    };
    let b: int = if bits & 8 == 8 {
        a + 1
    } else {
        a
    };
    let c: int = if bits & 2 == 2 {
        b + original.len()
    } else {
        b
    };
    let d: int = if bits & 4 == 4 {
        c + browser.len()
    } else {
        c
    };
    if bits & 1 == 1 {
        assert(streams.subrange(0, a) =~= local);
    }
    if bits & 2 == 2 {
        assert(streams.subrange(b, c) =~= original);
    }
    if bits & 4 == 4 {
        assert(streams.subrange(c, d) =~= browser);
    }
}

/// The servers that are prepared are those of the players with a video, in order.
pub proof fn every_video_is_prepared(players: Seq<PlayerData>)
    ensures
        servers_with_video(players) == players.filter(
            |p: PlayerData| p.data.video is Some,
        ).map_values(|p: PlayerData| p.server_name@),
    decreases players.len(),
{
    reveal(Seq::filter);
    let with_video = |p: PlayerData| p.data.video is Some;
    let name = |p: PlayerData| p.server_name@;
    if players.len() > 0 {
        every_video_is_prepared(players.drop_last());
    }
    assert(servers_with_video(players) =~= players.filter(with_video).map_values(name));
}

} // verus!
