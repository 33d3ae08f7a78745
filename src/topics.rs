//! Entity addressing: entity topic identifiers, channels, and the parsing of
//! registry paths and command topics.
use crate::text::chars_of;
use crate::text::free_of;
use crate::text::join_seq;
use crate::text::same_text;
use crate::text::split_on;
use crate::text::split_seq;
use crate::text::views;
use vstd::prelude::*;

verus! {

pub open spec fn slash() -> Seq<char> {
    seq!['/']
}

pub open spec fn twin_word() -> Seq<char> {
    seq!['t', 'w', 'i', 'n']
}

pub open spec fn cmd_word() -> Seq<char> {
    seq!['c', 'm', 'd']
}

/// Why a string is not an entity topic identifier.
#[derive(Debug, Clone, Copy, PartialEq, Eq, Structural)]
pub enum TopicIdError {
    /// The identifier does not have exactly four `/`-separated segments.
    InvalidNumberOfSegments,
    /// The identifier holds an MQTT wildcard (`+` or `#`).
    InvalidMqttTopic,
}

/// The error, if any, of reading `s` as an entity topic identifier.
pub open spec fn topic_id_check(s: Seq<char>) -> Option<TopicIdError> {
    if split_seq(s, '/').len() != 4 {
        Some(TopicIdError::InvalidNumberOfSegments)
    } else if !free_of(s, '+') || !free_of(s, '#') {
        Some(TopicIdError::InvalidMqttTopic)
    } else {
        None
    }
}

/// Four segments joined by `/`.
pub open spec fn join4(a: Seq<char>, b: Seq<char>, c: Seq<char>, d: Seq<char>) -> Seq<char> {
    a + slash() + b + slash() + c + slash() + d
}

/// A hierarchical entity identifier of four `/`-separated segments, such as
/// `device/main//` or `device/child1/service/collectd`.
#[derive(Debug)]
pub struct EntityTopicId {
    id: String,
}

impl View for EntityTopicId {
    type V = Seq<char>;

    closed spec fn view(&self) -> Seq<char> {
        self.id@
    }
}

impl EntityTopicId {
    #[verifier::type_invariant]
    closed spec fn inv(&self) -> bool {
        topic_id_check(self.id@) is None
    }

    /// Reads an entity topic identifier.
    pub fn parse(s: &str) -> (r: Result<EntityTopicId, TopicIdError>)
        ensures
            match topic_id_check(s@) {
                Some(e) => r == Err::<EntityTopicId, TopicIdError>(e),
                None => r is Ok && r->Ok_0@ == s@,
            },
    {
        let segs = split_on(s, '/');
        assert(views(segs@).len() == segs@.len());
        if segs.len() != 4 {
            return Err(TopicIdError::InvalidNumberOfSegments);
        }
        let cs = chars_of(s);
        let mut i: usize = 0;
        while i < cs.len()
            invariant
                cs@ == s@,
                split_seq(s@, '/').len() == 4,
                i <= cs.len(),
                forall|j: int| 0 <= j < i ==> s@[j] != '+' && s@[j] != '#',
            decreases cs.len() - i,
        {
            if cs[i] == '+' || cs[i] == '#' {
                assert(s@[i as int] == '+' || s@[i as int] == '#');
                assert(!free_of(s@, '+') || !free_of(s@, '#'));
                return Err(TopicIdError::InvalidMqttTopic);
            }
            i = i + 1;
        }
        assert(free_of(s@, '+') && free_of(s@, '#'));
        Ok(EntityTopicId { id: s.to_owned() })
    }

    /// The identifier as text.
    pub fn as_str(&self) -> (r: &str)
        ensures
            r@ == self@,
            topic_id_check(self@) is None,
    {
        proof {
            use_type_invariant(self);
        }
        self.id.as_str()
    }

    /// A copy of this identifier.
    pub fn duplicate(&self) -> (r: EntityTopicId)
        ensures
            r@ == self@,
    {
        proof {
            use_type_invariant(self);
        }
        EntityTopicId { id: self.id.clone() }
    }

    /// Whether two identifiers are the same.
    pub fn same_as(&self, other: &EntityTopicId) -> (r: bool)
        ensures
            r == (self@ == other@),
    {
        same_text(self.id.as_str(), other.id.as_str())
    }
}

impl PartialEq for EntityTopicId {
    fn eq(&self, other: &EntityTopicId) -> (r: bool) {
        self.same_as(other)
    }
}

impl vstd::std_specs::cmp::PartialEqSpecImpl for EntityTopicId {
    open spec fn obeys_eq_spec() -> bool {
        true
    }

    open spec fn eq_spec(&self, other: &EntityTopicId) -> bool {
        self@ == other@
    }
}

/// The channel of an entity that a path or topic designates.
#[derive(Debug)]
pub enum Channel {
    EntityMetadata,
    EntityTwinData { fragment_key: String },
    Command { operation: String, cmd_id: String },
    CommandMetadata { operation: String },
    Health,
}

/// A channel as plain values.
pub enum ChannelView {
    EntityMetadata,
    EntityTwinData { fragment_key: Seq<char> },
    Command { operation: Seq<char>, cmd_id: Seq<char> },
    CommandMetadata { operation: Seq<char> },
    Health,
}

impl View for Channel {
    type V = ChannelView;

    open spec fn view(&self) -> ChannelView {
        match self {
            Channel::EntityMetadata => ChannelView::EntityMetadata,
            Channel::EntityTwinData { fragment_key } => ChannelView::EntityTwinData {
                fragment_key: fragment_key@,
            },
            Channel::Command { operation, cmd_id } => ChannelView::Command {
                operation: operation@,
                cmd_id: cmd_id@,
            },
            Channel::CommandMetadata { operation } => ChannelView::CommandMetadata {
                operation: operation@,
            },
            Channel::Health => ChannelView::Health,
        }
    }
}

/// Why a registry path was refused.
#[derive(Debug)]
pub enum PathError {
    /// The entity part of the path is not a valid identifier.
    InvalidEntityTopicId(TopicIdError),
    /// A twin path with more than one key segment; holds the joined suffix.
    InvalidTwinData(String),
    /// A channel other than `twin`; holds the channel word.
    UnsupportedChannel(String),
    /// Too few segments to name an entity.
    ResourceNotFound,
}

/// A registry path error as plain values.
pub enum PathErrorView {
    InvalidEntityTopicId(TopicIdError),
    InvalidTwinData(Seq<char>),
    UnsupportedChannel(Seq<char>),
    ResourceNotFound,
}

impl View for PathError {
    type V = PathErrorView;

    open spec fn view(&self) -> PathErrorView {
        match self {
            PathError::InvalidEntityTopicId(e) => PathErrorView::InvalidEntityTopicId(*e),
            PathError::InvalidTwinData(s) => PathErrorView::InvalidTwinData(s@),
            PathError::UnsupportedChannel(s) => PathErrorView::UnsupportedChannel(s@),
            PathError::ResourceNotFound => PathErrorView::ResourceNotFound,
        }
    }
}

pub open spec fn parsed_view(r: Result<(EntityTopicId, Channel), PathError>) -> Result<
    (Seq<char>, ChannelView),
    PathErrorView,
> {
    match r {
        Ok((id, ch)) => Ok((id@, ch@)),
        Err(e) => Err(e@),
    }
}

/// The entity named by four segments, on the given channel.
pub open spec fn entity_on(
    a: Seq<char>,
    b: Seq<char>,
    c: Seq<char>,
    d: Seq<char>,
    ch: ChannelView,
) -> Result<(Seq<char>, ChannelView), PathErrorView> {
    let id = join4(a, b, c, d);
    match topic_id_check(id) {
        Some(e) => Err(PathErrorView::InvalidEntityTopicId(e)),
        None => Ok((id, ch)),
    }
}

/// What a registry path designates: by its number of segments, an entity
/// (two to four segments), the entity's whole twin (`.../twin`), one twin
/// fragment (`.../twin/<key>`), or an error.
pub open spec fn parse_path_spec(path: Seq<char>) -> Result<(Seq<char>, ChannelView), PathErrorView> {
    let s = split_seq(path, '/');
    let n = s.len();
    let e = Seq::<char>::empty();
    if n == 2 {
        entity_on(s[0], s[1], e, e, ChannelView::EntityMetadata)
    } else if n == 3 {
        entity_on(s[0], s[1], s[2], e, ChannelView::EntityMetadata)
    } else if n == 4 {
        entity_on(s[0], s[1], s[2], s[3], ChannelView::EntityMetadata)
    } else if n == 5 && s[4] == twin_word() {
        entity_on(s[0], s[1], s[2], s[3], ChannelView::EntityTwinData { fragment_key: e })
    } else if n == 6 && s[4] == twin_word() {
        entity_on(s[0], s[1], s[2], s[3], ChannelView::EntityTwinData { fragment_key: s[5] })
    } else if n >= 5 && s[4] == twin_word() {
        Err(PathErrorView::InvalidTwinData(join_seq(s.subrange(5, n as int), '/')))
    } else if n >= 5 {
        Err(PathErrorView::UnsupportedChannel(s[4]))
    } else {
        Err(PathErrorView::ResourceNotFound)
    }
}

/// `a/b/c/d` as an owned string.
pub fn join_four(a: &str, b: &str, c: &str, d: &str) -> (r: String)
    ensures
        r@ == join4(a@, b@, c@, d@),
{
    proof {
        reveal_strlit("/");
    }
    let mut r = a.to_owned();
    r.append("/");
    r.append(b);
    r.append("/");
    r.append(c);
    r.append("/");
    r.append(d);
    r
}

/// The entity topic identifier made of up to four path segments, the missing
/// ones left empty.
pub fn topic_id_from_path_segments(
    seg1: &str,
    seg2: Option<&str>,
    seg3: Option<&str>,
    seg4: Option<&str>,
) -> (r: Result<EntityTopicId, TopicIdError>)
    ensures
        ({
            let id = join4(
                seg1@,
                opt_text(seg2),
                opt_text(seg3),
                opt_text(seg4),
            );
            match topic_id_check(id) {
                Some(e) => r == Err::<EntityTopicId, TopicIdError>(e),
                None => r is Ok && r->Ok_0@ == id,
            }
        }),
{
    let id = join_four(seg1, or_empty(seg2), or_empty(seg3), or_empty(seg4));
    EntityTopicId::parse(id.as_str())
}

pub open spec fn opt_text(s: Option<&str>) -> Seq<char> {
    match s {
        Some(t) => t@,
        None => Seq::<char>::empty(),
    }
}

fn or_empty(s: Option<&str>) -> (r: &str)
    ensures
        r@ == opt_text(s),
{
    match s {
        Some(t) => t,
        None => {
            proof {
                reveal_strlit("");
            }
            ""
        },
    }
}

fn entity_path(
    a: &str,
    b: &str,
    c: &str,
    d: &str,
    ch: Channel,
) -> (r: Result<(EntityTopicId, Channel), PathError>)
    ensures
        parsed_view(r) == entity_on(a@, b@, c@, d@, ch@),
{
    match topic_id_from_path_segments(a, Some(b), Some(c), Some(d)) {
        Ok(id) => Ok((id, ch)),
        Err(e) => Err(PathError::InvalidEntityTopicId(e)),
    }
}

/// Reads a registry path into the entity it names and the channel on it.
pub fn parse_path(path: &str) -> (r: Result<(EntityTopicId, Channel), PathError>)
    ensures
        parsed_view(r) == parse_path_spec(path@),
{
    proof {
        reveal_strlit("");
        reveal_strlit("twin");
    }
    let s = split_on(path, '/');
    let n = s.len();
    let ghost v = views(s@);
    assert(v.len() == n);
    assert(forall|i: int| 0 <= i < n ==> v[i] == (#[trigger] s@[i])@);
    assert(v == split_seq(path@, '/'));
    assert("twin"@ =~= twin_word());
    if n == 2 {
        entity_path(s[0].as_str(), s[1].as_str(), "", "", Channel::EntityMetadata)
    } else if n == 3 {
        entity_path(s[0].as_str(), s[1].as_str(), s[2].as_str(), "", Channel::EntityMetadata)
    } else if n == 4 {
        entity_path(
            s[0].as_str(),
            s[1].as_str(),
            s[2].as_str(),
            s[3].as_str(),
            Channel::EntityMetadata,
        )
    } else if n >= 5 && same_text(s[4].as_str(), "twin") {
        assert(v[4] == twin_word());
        if n == 5 {
            let fk = "".to_owned();
            assert(fk@ =~= Seq::<char>::empty());
            let ch = Channel::EntityTwinData { fragment_key: fk };
            entity_path(s[0].as_str(), s[1].as_str(), s[2].as_str(), s[3].as_str(), ch)
        } else if n == 6 {
            let ch = Channel::EntityTwinData { fragment_key: s[5].clone() };
            entity_path(s[0].as_str(), s[1].as_str(), s[2].as_str(), s[3].as_str(), ch)
        } else {
            let keys = join_from(&s, 5);
            assert(v.subrange(5, n as int) =~= views(s@.subrange(5, n as int)));
            Err(PathError::InvalidTwinData(keys))
        }
    } else if n >= 5 {
        Err(PathError::UnsupportedChannel(s[4].clone()))
    } else {
        Err(PathError::ResourceNotFound)
    }
}

/// The parts `v[from..]` joined with `/`.
pub fn join_from(v: &Vec<String>, from: usize) -> (r: String)
    requires
        from <= v.len(),
    ensures
        r@ == join_seq(views(v@.subrange(from as int, v.len() as int)), '/'),
{
    proof {
        reveal_strlit("/");
        reveal_strlit("");
    }
    let mut r = "".to_owned();
    let mut i: usize = from;
    while i < v.len()
        invariant
            from <= i <= v.len(),
            r@ == join_seq(views(v@.subrange(from as int, i as int)), '/'),
        decreases v.len() - i,
    {
        let ghost before = views(v@.subrange(from as int, i as int));
        let ghost after = views(v@.subrange(from as int, i + 1));
        assert(after.drop_last() =~= before);
        assert(after.last() == v@[i as int]@);
        if i > from {
            let ghost r0 = r@;
            proof {
                reveal_strlit("/");
            }
            r.append("/");
            assert(r@ =~= r0.push('/'));
            let vi = v[i].as_str();
            assert(vi@ == after.last());
            r.append(vi);
            assert(r@ =~= r0.push('/') + after.last());
            assert(after.len() >= 2);
            assert(r0 == join_seq(before, '/'));
            assert(join_seq(after, '/') == join_seq(after.drop_last(), '/').push('/') + after.last());
            assert(r@ == join_seq(after, '/'));
        } else {
            assert(after.len() == 1);
            assert(r@ =~= Seq::<char>::empty());
            r.append(v[i].as_str());
            assert(r@ =~= after[0]);
        }
        i = i + 1;
    }
    r
}

/// The parts of a command topic `<root>/<a>/<b>/<c>/<d>/cmd/<operation>/<cmd-id>`:
/// root, entity identifier `a/b/c/d`, operation and command id.
pub open spec fn command_topic_parts(t: Seq<char>) -> Option<
    (Seq<char>, Seq<char>, Seq<char>, Seq<char>),
> {
    let s = split_seq(t, '/');
    if s.len() == 8 && s[5] == cmd_word() {
        Some((s[0], join4(s[1], s[2], s[3], s[4]), s[6], s[7]))
    } else {
        None
    }
}

/// The topic of command `cmd_id` of `operation` on `entity` under `root`.
pub open spec fn command_topic(
    root: Seq<char>,
    entity: Seq<char>,
    operation: Seq<char>,
    cmd_id: Seq<char>,
) -> Seq<char> {
    root + slash() + entity + slash() + cmd_word() + slash() + operation + slash() + cmd_id
}

/// A command topic split into its parts.
pub struct CommandTopic {
    pub root: String,
    pub entity: String,
    pub operation: String,
    pub cmd_id: String,
}

pub open spec fn command_topic_view(c: Option<CommandTopic>) -> Option<
    (Seq<char>, Seq<char>, Seq<char>, Seq<char>),
> {
    match c {
        Some(c) => Some((c.root@, c.entity@, c.operation@, c.cmd_id@)),
        None => None,
    }
}

/// Splits a command topic into root, entity, operation and command id.
pub fn split_command_topic(topic: &str) -> (r: Option<CommandTopic>)
    ensures
        command_topic_view(r) == command_topic_parts(topic@),
{
    proof {
        reveal_strlit("cmd");
    }
    let s = split_on(topic, '/');
    let ghost v = views(s@);
    assert(v.len() == s@.len());
    assert(forall|i: int| 0 <= i < s@.len() ==> v[i] == (#[trigger] s@[i])@);
    assert("cmd"@ =~= cmd_word());
    if s.len() == 8 && same_text(s[5].as_str(), "cmd") {
        let entity = join_four(s[1].as_str(), s[2].as_str(), s[3].as_str(), s[4].as_str());
        Some(
            CommandTopic {
                root: s[0].clone(),
                entity,
                operation: s[6].clone(),
                cmd_id: s[7].clone(),
            },
        )
    } else {
        None
    }
}

/// Builds the topic of a command.
pub fn command_topic_for(root: &str, entity: &str, operation: &str, cmd_id: &str) -> (r: String)
    ensures
        r@ == command_topic(root@, entity@, operation@, cmd_id@),
{
    proof {
        reveal_strlit("/");
        reveal_strlit("/cmd/");
    }
    let mut r = root.to_owned();
    r.append("/");
    r.append(entity);
    r.append("/cmd/");
    r.append(operation);
    r.append("/");
    r.append(cmd_id);
    assert(r@ =~= command_topic(root@, entity@, operation@, cmd_id@));
    r
}

/// The non-empty segments of an entity identifier joined by `:`, as in
/// `device:child1`.
pub open spec fn normalized_name(id: Seq<char>) -> Seq<char> {
    join_seq(split_seq(id, '/').filter(|p: Seq<char>| p.len() > 0), ':')
}

/// The non-empty segments of an entity identifier joined by `:`:
/// `device/child1//` gives `device:child1`.
pub fn normalize_name(source: &EntityTopicId) -> (r: String)
    ensures
        r@ == normalized_name(source@),
{
    proof {
        reveal_strlit(":");
        reveal_strlit("");
    }
    let parts = split_on(source.as_str(), '/');
    let ghost v = views(parts@);
    let ghost keep = |p: Seq<char>| p.len() > 0;
    let mut r = "".to_owned();
    let mut first = true;
    let mut i: usize = 0;
    proof {
        reveal(Seq::filter);
        assert(v.take(0) =~= Seq::<Seq<char>>::empty());
    }
    while i < parts.len()
        invariant
            v == views(parts@),
            v.len() == parts@.len(),
            keep == (|p: Seq<char>| p.len() > 0),
            i <= v.len(),
            first == (v.take(i as int).filter(keep).len() == 0),
            r@ == join_seq(v.take(i as int).filter(keep), ':'),
        decreases v.len() - i,
    {
        let ghost kept = v.take(i as int).filter(keep);
        proof {
            reveal_strlit(":");
            reveal(Seq::filter);
            assert(v.take(i + 1).drop_last() =~= v.take(i as int));
            assert(v.take(i + 1).last() == v[i as int]);
            assert(v[i as int] == parts@[i as int]@);
        }
        if parts[i].as_str().unicode_len() > 0 {
            let ghost r0 = r@;
            if !first {
                r.append(":");
            }
            r.append(parts[i].as_str());
            proof {
                let k1 = kept.push(v[i as int]);
                assert(v.take(i + 1).filter(keep) == k1);
                if first {
                    assert(k1.len() == 1);
                    assert(r@ =~= k1[0]);
                } else {
                    assert(k1.drop_last() =~= kept);
                    assert(r@ =~= r0.push(':') + v[i as int]);
                }
            }
            first = false;
        } else {
            proof {
                assert(v.take(i + 1).filter(keep) == kept);
            }
        }
        i = i + 1;
    }
    proof {
        assert(v.take(i as int) =~= v);
    }
    r
}

proof fn lemma_split_parts_free(s: Seq<char>, sep: char, c: char)
    requires
        c == sep || free_of(s, c),
    ensures
        forall|i: int| 0 <= i < split_seq(s, sep).len() ==> free_of(#[trigger] split_seq(s, sep)[i], c),
    decreases s.len(),
{
    if s.len() > 0 {
        let t = s.drop_last();
        assert(c == sep || free_of(t, c));
        lemma_split_parts_free(t, sep, c);
        crate::text::lemma_split_nonempty(t, sep);
        let prev = split_seq(t, sep);
        if s.last() != sep {
            assert(s.last() == s[s.len() - 1]);
            assert(s.last() != c);
            assert forall|i: int| 0 <= i < split_seq(s, sep).len() implies free_of(
                #[trigger] split_seq(s, sep)[i],
                c,
            ) by {
                if i == prev.len() - 1 {
                    let x = prev.last().push(s.last());
                    assert(split_seq(s, sep)[i] == x);
                    assert forall|k: int| 0 <= k < x.len() implies x[k] != c by {
                        if k < prev.last().len() {
                            assert(x[k] == prev[i][k]);
                        }
                    }
                } else {
                    assert(split_seq(s, sep)[i] == prev[i]);
                }
            }
        } else {
            assert forall|i: int| 0 <= i < split_seq(s, sep).len() implies free_of(
                #[trigger] split_seq(s, sep)[i],
                c,
            ) by {
                if i < prev.len() {
                    assert(split_seq(s, sep)[i] == prev[i]);
                }
            }
        }
    }
}

pub proof fn lemma_free_concat(a: Seq<char>, b: Seq<char>, c: char)
    requires
        free_of(a, c),
        free_of(b, c),
    ensures
        free_of(a + b, c),
{
    assert forall|k: int| 0 <= k < (a + b).len() implies (a + b)[k] != c by {
        if k < a.len() {
            assert((a + b)[k] == a[k]);
        } else {
            assert((a + b)[k] == b[k - a.len()]);
        }
    }
}

/// Four wildcard-free segments without `/` make a valid identifier.
proof fn lemma_join4_valid(a: Seq<char>, b: Seq<char>, c: Seq<char>, d: Seq<char>)
    requires
        free_of(a, '/') && free_of(b, '/') && free_of(c, '/') && free_of(d, '/'),
        free_of(a, '+') && free_of(b, '+') && free_of(c, '+') && free_of(d, '+'),
        free_of(a, '#') && free_of(b, '#') && free_of(c, '#') && free_of(d, '#'),
    ensures
        topic_id_check(join4(a, b, c, d)) is None,
{
    let parts = seq![a, b, c, d];
    assert(parts.drop_last().drop_last().drop_last() =~= seq![a]);
    assert(parts.drop_last().drop_last() =~= seq![a, b]);
    assert(parts.drop_last() =~= seq![a, b, c]);
    assert(join_seq(seq![a], '/') == a);
    assert(join_seq(seq![a, b], '/') == a.push('/') + b);
    assert(join_seq(seq![a, b, c], '/') == (a.push('/') + b).push('/') + c);
    assert(join_seq(parts, '/') =~= join4(a, b, c, d));
    assert forall|i: int| 0 <= i < parts.len() implies free_of(#[trigger] parts[i], '/') by {}
    crate::text::lemma_split_join(parts, '/');
    lemma_free_concat(a, slash(), '+');
    lemma_free_concat(a + slash(), b, '+');
    lemma_free_concat(a + slash() + b, slash(), '+');
    lemma_free_concat(a + slash() + b + slash(), c, '+');
    lemma_free_concat(a + slash() + b + slash() + c, slash(), '+');
    lemma_free_concat(a + slash() + b + slash() + c + slash(), d, '+');
    lemma_free_concat(a, slash(), '#');
    lemma_free_concat(a + slash(), b, '#');
    lemma_free_concat(a + slash() + b, slash(), '#');
    lemma_free_concat(a + slash() + b + slash(), c, '#');
    lemma_free_concat(a + slash() + b + slash() + c, slash(), '#');
    lemma_free_concat(a + slash() + b + slash() + c + slash(), d, '#');
}

/// Reading a registry path free of MQTT wildcards drops nothing: with `s`
/// its segments, two to four segments name the entity made of them (the
/// missing ones empty); four segments and `twin` name its whole twin data,
/// and one more segment names that twin fragment; a fifth segment other
/// than `twin` is reported as an unsupported channel, and more than one
/// segment after `twin` as invalid twin data holding all of them.
pub proof fn lemma_parse_path_total(path: Seq<char>)
    requires
        free_of(path, '+'),
        free_of(path, '#'),
    ensures
        ({
            let s = split_seq(path, '/');
            let n = s.len();
            let e = Seq::<char>::empty();
            &&& n == 2 ==> parse_path_spec(path) == Ok::<_, PathErrorView>(
                (join4(s[0], s[1], e, e), ChannelView::EntityMetadata),
            )
            &&& n == 3 ==> parse_path_spec(path) == Ok::<_, PathErrorView>(
                (join4(s[0], s[1], s[2], e), ChannelView::EntityMetadata),
            )
            &&& n == 4 ==> parse_path_spec(path) == Ok::<_, PathErrorView>(
                (join4(s[0], s[1], s[2], s[3]), ChannelView::EntityMetadata),
            )
            &&& n == 5 && s[4] == twin_word() ==> parse_path_spec(path) == Ok::<_, PathErrorView>(
                (join4(s[0], s[1], s[2], s[3]), ChannelView::EntityTwinData { fragment_key: e }),
            )
            &&& n == 6 && s[4] == twin_word() ==> parse_path_spec(path) == Ok::<_, PathErrorView>(
                (join4(s[0], s[1], s[2], s[3]), ChannelView::EntityTwinData { fragment_key: s[5] }),
            )
            &&& n >= 7 && s[4] == twin_word() ==> parse_path_spec(path) == Err::<(Seq<char>, ChannelView), _>(
                PathErrorView::InvalidTwinData(join_seq(s.subrange(5, n as int), '/')),
            )
            &&& n >= 5 && s[4] != twin_word() ==> parse_path_spec(path) == Err::<(Seq<char>, ChannelView), _>(
                PathErrorView::UnsupportedChannel(s[4]),
            )
        }),
{
    let s = split_seq(path, '/');
    let e = Seq::<char>::empty();
    lemma_split_parts_free(path, '/', '/');
    lemma_split_parts_free(path, '/', '+');
    lemma_split_parts_free(path, '/', '#');
    let n = s.len();
    if n >= 2 {
        let c = if n >= 3 { s[2] } else { e };
        let d = if n >= 4 { s[3] } else { e };
        assert(free_of(s[0], '/') && free_of(s[1], '/'));
        assert(free_of(s[0], '+') && free_of(s[1], '+'));
        assert(free_of(s[0], '#') && free_of(s[1], '#'));
        if n >= 3 {
            assert(free_of(s[2], '/') && free_of(s[2], '+') && free_of(s[2], '#'));
        }
        if n >= 4 {
            assert(free_of(s[3], '/') && free_of(s[3], '+') && free_of(s[3], '#'));
        }
        lemma_join4_valid(s[0], s[1], c, d);
    }
}

proof fn lemma_join_extend_last(q: Seq<Seq<char>>, c: char, sep: char)
    requires
        q.len() >= 1,
    ensures
        join_seq(q.update(q.len() - 1, q.last().push(c)), sep) == join_seq(q, sep).push(c),
{
    let u = q.update(q.len() - 1, q.last().push(c));
    if q.len() >= 2 {
        assert(u.drop_last() =~= q.drop_last());
        assert(join_seq(u, sep) == join_seq(u.drop_last(), sep).push(sep) + u.last());
        assert(join_seq(u, sep) =~= join_seq(q, sep).push(c));
    }
}

/// Joining the segments of a text gives the text back.
proof fn lemma_join_split(s: Seq<char>, sep: char)
    ensures
        join_seq(split_seq(s, sep), sep) == s,
    decreases s.len(),
{
    if s.len() == 0 {
        assert(join_seq(seq![Seq::<char>::empty()], sep) == Seq::<char>::empty());
    } else {
        let t = s.drop_last();
        lemma_join_split(t, sep);
        crate::text::lemma_split_nonempty(t, sep);
        let prev = split_seq(t, sep);
        if s.last() == sep {
            let q = prev.push(Seq::<char>::empty());
            assert(q.drop_last() =~= prev);
            assert(join_seq(q, sep) == join_seq(prev, sep).push(sep) + Seq::<char>::empty());
            assert(join_seq(q, sep) =~= s);
        } else {
            lemma_join_extend_last(prev, s.last(), sep);
            assert(t.push(s.last()) =~= s);
        }
    }
}

/// Joining two non-empty lists of parts joins their joins.
proof fn lemma_join_concat(a: Seq<Seq<char>>, b: Seq<Seq<char>>, sep: char)
    requires
        a.len() >= 1,
        b.len() >= 1,
    ensures
        join_seq(a + b, sep) == join_seq(a, sep).push(sep) + join_seq(b, sep),
    decreases b.len(),
{
    if b.len() == 1 {
        assert((a + b).drop_last() =~= a);
        assert((a + b).last() == b[0]);
    } else {
        lemma_join_concat(a, b.drop_last(), sep);
        assert((a + b).drop_last() =~= a + b.drop_last());
        assert((a + b).last() == b.last());
        assert(join_seq(a + b, sep) =~= join_seq(a, sep).push(sep) + join_seq(b, sep));
    }
}

/// A command topic built from a topic root, a valid entity identifier, an
/// operation and a command id, none but the entity holding `/`, splits back
/// into those parts.
pub proof fn lemma_command_topic_parts(
    root: Seq<char>,
    entity: Seq<char>,
    operation: Seq<char>,
    cmd_id: Seq<char>,
)
    requires
        free_of(root, '/'),
        free_of(operation, '/'),
        free_of(cmd_id, '/'),
        topic_id_check(entity) is None,
    ensures
        command_topic_parts(command_topic(root, entity, operation, cmd_id)) == Some(
            (root, entity, operation, cmd_id),
        ),
{
    let p = split_seq(entity, '/');
    lemma_join_split(entity, '/');
    lemma_split_parts_free(entity, '/', '/');
    let tail = seq![cmd_word(), operation, cmd_id];
    let l = seq![root] + p + tail;
    lemma_join_concat(seq![root], p, '/');
    lemma_join_concat(seq![root] + p, tail, '/');
    assert(join_seq(seq![root], '/') == root);
    assert(tail.drop_last().drop_last() =~= seq![cmd_word()]);
    assert(tail.drop_last() =~= seq![cmd_word(), operation]);
    assert(join_seq(seq![cmd_word()], '/') == cmd_word());
    let t2 = seq![cmd_word(), operation];
    assert(t2.drop_last() =~= seq![cmd_word()]);
    assert(join_seq(t2, '/') == cmd_word().push('/') + operation);
    assert(join_seq(tail, '/') == join_seq(t2, '/').push('/') + cmd_id);
    assert(join_seq(tail, '/') =~= cmd_word() + slash() + operation + slash() + cmd_id);
    assert(join_seq(l, '/') =~= command_topic(root, entity, operation, cmd_id));
    assert forall|i: int| 0 <= i < l.len() implies free_of(#[trigger] l[i], '/') by {
        if 1 <= i < 5 {
            assert(l[i] == p[i - 1]);
        }
    }
    crate::text::lemma_split_join(l, '/');
    assert(p.drop_last().drop_last().drop_last() =~= seq![p[0]]);
    assert(p.drop_last().drop_last() =~= seq![p[0], p[1]]);
    assert(p.drop_last() =~= seq![p[0], p[1], p[2]]);
    let p2 = seq![p[0], p[1]];
    let p3 = seq![p[0], p[1], p[2]];
    assert(p2.drop_last() =~= seq![p[0]]);
    assert(p3.drop_last() =~= p2);
    assert(join_seq(seq![p[0]], '/') == p[0]);
    assert(join_seq(p2, '/') == p[0].push('/') + p[1]);
    assert(join_seq(p3, '/') == join_seq(p2, '/').push('/') + p[2]);
    assert(join_seq(p, '/') == join_seq(p3, '/').push('/') + p[3]);
    assert(join_seq(p, '/') =~= join4(p[0], p[1], p[2], p[3]));
    assert(l[1] == p[0] && l[2] == p[1] && l[3] == p[2] && l[4] == p[3]);
    assert(l[5] == cmd_word() && l[6] == operation && l[7] == cmd_id && l[0] == root);
}

} // verus!
