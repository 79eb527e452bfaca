//! The commands of the store, read from and written to frames.
use vstd::prelude::*;
use vstd::utf8::*;
use crate::frame::{Frame, FrameModel, models};
use crate::parse::{Parse, ParseError, text_of, bytes_of};
use crate::db::{Db, Entity, kv_map, distinct_keys, lemma_kv_map_at};

verus! {

/// What `str::to_lowercase` returns for a text.
pub uninterp spec fn lowercase(s: Seq<char>) -> Seq<char>;

pub open spec fn is_ascii_text(s: Seq<char>) -> bool {
    forall|i: int| 0 <= i < s.len() ==> (#[trigger] s[i] as u32) < 128
}

/// The ASCII lowercase of an ASCII text.
pub open spec fn ascii_lowercase(s: Seq<char>) -> Seq<char> {
    Seq::new(
        s.len(),
        |i: int|
            if 'A' <= s[i] <= 'Z' {
                ((s[i] as u32) + 32) as char
            } else {
                s[i]
            },
    )
}

/// The lowercase of a command's name: the ASCII lowercase of an ASCII name,
/// what `str::to_lowercase` returns for any other.
pub open spec fn name_lowercase(s: Seq<char>) -> Seq<char> {
    if is_ascii_text(s) {
        ascii_lowercase(s)
    } else {
        lowercase(s)
    }
}

/// `str::to_lowercase`: the lowercase of `s` by Unicode's rules; on an ASCII
/// text that is the ASCII lowercase (std takes an ASCII path there). Nothing
/// more is stated of other texts.
#[verifier::external_body]
fn to_lowercase(s: &str) -> (r: String)
    ensures
        r@ == lowercase(s@),
        is_ascii_text(s@) ==> r@ == ascii_lowercase(s@),
{
    s.to_lowercase()
}

/// A `String` holding the text of a literal.
pub(crate) fn text(s: &str) -> (r: String)
    ensures
        r@ == s@,
{
    proof {
        broadcast use vstd::string::to_string_from_display_ensures_for_str;
    }
    s.to_string()
}

/// Reads one key and its value.
#[derive(Debug)]
pub struct Get {
    key: String,
}

/// Stores a value under a key.
#[derive(Debug)]
pub struct SetCmd {
    key: String,
    value: Vec<u8>,
}

/// Stores several keys with their values.
#[derive(Debug)]
pub struct Load {
    elements: Vec<SetCmd>,
}

/// Asks for the whole content of the store.
#[derive(Debug)]
pub struct Snap;

#[derive(Debug)]
pub enum Command {
    Get(Get),
    SetCmd(SetCmd),
    Load(Load),
    Snap(Snap),
}

/// The value of a command.
pub enum CommandModel {
    Get(Seq<char>),
    SetCmd(Seq<char>, Seq<u8>),
    Load(Seq<(Seq<char>, Seq<u8>)>),
    Snap,
}

/// A spec-level parse error: the parts ran out, a part is of the wrong
/// kind, or the command's name is none of the four.
pub enum ErrKind {
    EndOfStream,
    Other,
    Unknown,
}

/// The parse error `r` is of the kind `k`; for an unknown command name, it
/// also carries the message "Could not parse the command".
pub open spec fn matches_err(r: ParseError, k: ErrKind) -> bool {
    match k {
        ErrKind::EndOfStream => r is EndOfStream,
        ErrKind::Other => r is Other,
        ErrKind::Unknown => r matches ParseError::Other(m) && m@ == "Could not parse the command"@,
    }
}

/// The reply to `get` of `k` on the store `m`: the value as a bulk frame, or
/// the null frame.
pub open spec fn get_reply(m: Map<Seq<char>, Seq<u8>>, k: Seq<char>) -> FrameModel {
    if m.contains_key(k) {
        FrameModel::Bulk(m[k])
    } else {
        FrameModel::Null
    }
}

impl Get {
    pub closed spec fn key_spec(&self) -> Seq<char> {
        self.key@
    }

    pub fn new(key: String) -> (g: Get)
        ensures
            g.key_spec() == key@,
    {
        Get { key }
    }

    /// Reads the key.
    pub fn from_parse(parse: &mut Parse) -> (r: Result<Get, ParseError>)
        ensures
            old(parse).remaining().len() == 0 ==> (r matches Err(ParseError::EndOfStream)),
            old(parse).remaining().len() > 0 ==> final(parse).remaining() == old(
                parse,
            ).remaining().drop_first() && match text_of(old(parse).remaining()[0]) {
                Some(k) => r matches Ok(g) && g.key_spec() == k,
                None => r matches Err(ParseError::Other(_)),
            },
    {
        let key = parse.next_string()?;
        Ok(Get { key })
    }

    pub fn key(&self) -> (r: &str)
        ensures
            r@ == self.key_spec(),
    {
        self.key.as_str()
    }

    /// The reply to this command: the stored value as a bulk frame, or the null
    /// frame.
    pub fn apply(self, db: &Db) -> (r: Frame)
        ensures
            r.model() == get_reply(db@, self.key_spec()),
    {
        match db.get(self.key.as_str()) {
            Some(value) => Frame::Bulk(value),
            None => Frame::Null,
        }
    }

    /// The request frame: an array of the bulk frames `get` and the key.
    pub fn into_frame(self) -> (r: Frame)
        ensures
            r.model() == FrameModel::Array(
                seq![
                    FrameModel::Bulk(encode_utf8("get"@)),
                    FrameModel::Bulk(encode_utf8(self.key_spec())),
                ],
            ),
    {
        let name = Frame::Bulk(vstd::slice::slice_to_vec("get".as_bytes()));
        let key = Frame::Bulk(vstd::slice::slice_to_vec(self.key.as_str().as_bytes()));
        let v = vec![name, key];
        proof {
            crate::frame::lemma_array_model(v);
            assert(models(v@) =~= seq![
                FrameModel::Bulk(encode_utf8("get"@)),
                FrameModel::Bulk(encode_utf8(self.key_spec())),
            ]);
        }
        Frame::Array(v)
    }
}

impl SetCmd {
    pub closed spec fn key_spec(&self) -> Seq<char> {
        self.key@
    }

    pub closed spec fn value_spec(&self) -> Seq<u8> {
        self.value@
    }

    pub fn new(key: String, value: Vec<u8>) -> (s: SetCmd)
        ensures
            s.key_spec() == key@,
            s.value_spec() == value@,
    {
        SetCmd { key, value }
    }

    /// Reads the key, then the value.
    pub fn from_parse(parse: &mut Parse) -> (r: Result<SetCmd, ParseError>)
        ensures
            match set_of(old(parse).remaining()) {
                Ok((k, v)) => r matches Ok(s) && s.key_spec() == k && s.value_spec() == v
                    && final(parse).remaining() == old(parse).remaining().subrange(
                    2,
                    old(parse).remaining().len() as int,
                ),
                Err(e) => r matches Err(pe) && matches_err(pe, e),
            },
    {
        let key = parse.next_string()?;
        let value = parse.next_bytes()?;
        Ok(SetCmd { key, value })
    }

    /// Stores the value under the key; the reply is the simple frame `OK`.
    pub fn apply(self, db: &mut Db) -> (r: Frame)
        ensures
            final(db)@ == old(db)@.insert(self.key_spec(), self.value_spec()),
            r.model() == FrameModel::Simple("OK"@),
    {
        db.set(self.key, self.value);
        Frame::Simple(text("OK"))
    }

    /// The request frame: an array of the bulk frames `set`, the key and the value.
    pub fn into_frame(self) -> (r: Frame)
        ensures
            r.model() == FrameModel::Array(
                seq![
                    FrameModel::Bulk(encode_utf8("set"@)),
                    FrameModel::Bulk(encode_utf8(self.key_spec())),
                    FrameModel::Bulk(self.value_spec()),
                ],
            ),
    {
        let name = Frame::Bulk(vstd::slice::slice_to_vec("set".as_bytes()));
        let key = Frame::Bulk(vstd::slice::slice_to_vec(self.key.as_str().as_bytes()));
        let ghost value_model = self.value@;
        let value = Frame::Bulk(self.value);
        let v = vec![name, key, value];
        proof {
            crate::frame::lemma_array_model(v);
            assert(models(v@) =~= seq![
                FrameModel::Bulk(encode_utf8("set"@)),
                FrameModel::Bulk(encode_utf8(self.key_spec())),
                FrameModel::Bulk(value_model),
            ]);
        }
        Frame::Array(v)
    }

    pub fn key(&self) -> (r: &str)
        ensures
            r@ == self.key_spec(),
    {
        self.key.as_str()
    }

    pub fn value(&self) -> (r: &Vec<u8>)
        ensures
            r@ == self.value_spec(),
    {
        &self.value
    }
}

/// A key and a value read from the parts `items`, as `SetCmd::from_parse` reads them.
pub open spec fn set_of(items: Seq<FrameModel>) -> Result<(Seq<char>, Seq<u8>), ErrKind> {
    if items.len() == 0 {
        Err(ErrKind::EndOfStream)
    } else {
        match text_of(items[0]) {
            None => Err(ErrKind::Other),
            Some(k) => if items.len() < 2 {
                Err(ErrKind::EndOfStream)
            } else {
                match bytes_of(items[1]) {
                    None => Err(ErrKind::Other),
                    Some(v) => Ok((k, v)),
                }
            },
        }
    }
}

/// The pairs that `Load::from_parse` reads from the elements of its array: one
/// for each leading element that is an array, up to the first that is not.
pub open spec fn load_pairs(items: Seq<FrameModel>) -> Result<Seq<(Seq<char>, Seq<u8>)>, ErrKind>
    decreases items.len(),
{
    if items.len() == 0 {
        Ok(Seq::empty())
    } else {
        match items[0] {
            FrameModel::Array(sub) => match set_of(sub) {
                Err(e) => Err(e),
                Ok(kv) => match load_pairs(items.drop_first()) {
                    Ok(rest) => Ok(seq![kv] + rest),
                    Err(e) => Err(e),
                },
            },
            _ => Ok(Seq::empty()),
        }
    }
}

pub open spec fn pairs_of(elements: Seq<SetCmd>) -> Seq<(Seq<char>, Seq<u8>)> {
    Seq::new(elements.len(), |i: int| (elements[i].key_spec(), elements[i].value_spec()))
}

/// The store after storing each pair in turn.
pub open spec fn store_all(m: Map<Seq<char>, Seq<u8>>, pairs: Seq<(Seq<char>, Seq<u8>)>) -> Map<
    Seq<char>,
    Seq<u8>,
>
    decreases pairs.len(),
{
    if pairs.len() == 0 {
        m
    } else {
        store_all(m, pairs.drop_last()).insert(pairs.last().0, pairs.last().1)
    }
}

impl Load {
    pub closed spec fn pairs(&self) -> Seq<(Seq<char>, Seq<u8>)> {
        pairs_of(self.elements@)
    }

    /// Reads an array of `[key, value]` arrays.
    pub fn from_parse(parse: &mut Parse) -> (r: Result<Load, ParseError>)
        ensures
            old(parse).remaining().len() == 0 ==> (r matches Err(ParseError::EndOfStream)),
            old(parse).remaining().len() > 0 ==> final(parse).remaining() == old(
                parse,
            ).remaining().drop_first() && match old(parse).remaining()[0] {
                FrameModel::Array(items) => match load_pairs(items) {
                    Ok(pairs) => r matches Ok(l) && l.pairs() == pairs,
                    Err(e) => r matches Err(pe) && matches_err(pe, e),
                },
                _ => r matches Err(ParseError::Other(_)),
            },
    {
        let mut elements: Vec<SetCmd> = Vec::new();
        let mut els = parse.next_array()?;
        let ghost all = els.remaining();
        loop
            invariant_except_break
                all.len() >= els.remaining().len(),
                els.remaining() == all.subrange(
                    all.len() - els.remaining().len(),
                    all.len() as int,
                ),
                match load_pairs(all) {
                    Ok(pairs) => match load_pairs(els.remaining()) {
                        Ok(rest) => pairs == pairs_of(elements@) + rest,
                        Err(_) => false,
                    },
                    Err(e) => match load_pairs(els.remaining()) {
                        Ok(_) => false,
                        Err(e2) => e2 == e,
                    },
                },
            invariant
                old(parse).remaining().len() > 0,
                old(parse).remaining()[0] == FrameModel::Array(all),
                parse.remaining() == old(parse).remaining().drop_first(),
            ensures
                load_pairs(all) matches Ok(pairs) && pairs == pairs_of(elements@),
            decreases els.remaining().len(),
        {
            let ghost before = els.remaining();
            match els.next_array() {
                Ok(mut p) => {
                    let ghost p_items = p.remaining();
                    let set = SetCmd::from_parse(&mut p)?;
                    let ghost prev = elements@;
                    elements.push(set);
                    proof {
                        assert(pairs_of(elements@) =~= pairs_of(prev) + seq![
                            (set.key_spec(), set.value_spec()),
                        ]);
                        assert(els.remaining() =~= all.subrange(
                            all.len() - els.remaining().len(),
                            all.len() as int,
                        ));
                        assert(before[0] == FrameModel::Array(p_items));
                        if let Ok(rest) = load_pairs(els.remaining()) {
                            assert(pairs_of(prev) + (seq![(set.key_spec(), set.value_spec())]
                                + rest) =~= pairs_of(elements@) + rest);
                        }
                    }
                },
                Err(_) => {
                    proof {
                        assert(load_pairs(before) == Ok::<Seq<(Seq<char>, Seq<u8>)>, ErrKind>(
                            Seq::empty(),
                        ));
                        assert(pairs_of(elements@) + Seq::<(Seq<char>, Seq<u8>)>::empty()
                            =~= pairs_of(elements@));
                    }
                    break ;
                },
            }
        }
        Ok(Load { elements })
    }

    /// Stores every pair in turn; the reply is the simple frame `OK`.
    pub fn apply(self, db: &mut Db) -> (r: Frame)
        ensures
            final(db)@ == store_all(old(db)@, self.pairs()),
            r.model() == FrameModel::Simple("OK"@),
    {
        let ghost pairs = self.pairs();
        let ghost start = db@;
        let mut elements = self.elements;
        let mut i: usize = 0;
        let _n = elements.len();
        proof {
            assert(pairs.subrange(0, 0) =~= Seq::<(Seq<char>, Seq<u8>)>::empty());
            assert(pairs_of(elements@) =~= pairs.subrange(0, pairs.len() as int));
        }
        while elements.len() > 0
            invariant
                pairs.len() <= usize::MAX,
                i + elements@.len() == pairs.len(),
                pairs_of(elements@) == pairs.subrange(i as int, pairs.len() as int),
                db@ == store_all(start, pairs.subrange(0, i as int)),
            decreases elements@.len(),
        {
            let ghost e0 = elements@;
            let s = elements.remove(0);
            let ghost kv = (s.key_spec(), s.value_spec());
            proof {
                assert(pairs_of(e0)[0] == kv);
                assert(pairs[i as int] == kv);
                assert forall|j: int| 0 <= j < elements@.len() implies #[trigger] pairs_of(
                    elements@,
                )[j] == pairs.subrange(i + 1, pairs.len() as int)[j] by {
                    assert(elements@[j] == e0[j + 1]);
                    assert(pairs_of(e0)[j + 1] == pairs.subrange(i as int, pairs.len() as int)[j
                        + 1]);
                }
                assert(pairs_of(elements@) =~= pairs.subrange(i + 1, pairs.len() as int));
                let t = pairs.subrange(0, i + 1);
                assert(t.drop_last() =~= pairs.subrange(0, i as int));
            }
            db.set(s.key, s.value);
            i = i + 1;
        }
        proof {
            assert(pairs.subrange(0, pairs.len() as int) =~= pairs);
        }
        Frame::Simple(text("OK"))
    }
}

/// The reply to `snap`: a `load` request that stores every pair of the store.
pub open spec fn snap_reply(kv: Seq<(String, Entity)>) -> FrameModel {
    FrameModel::Array(
        seq![
            FrameModel::Simple("load"@),
            FrameModel::Array(
                Seq::new(
                    kv.len(),
                    |i: int|
                        FrameModel::Array(
                            seq![FrameModel::Simple(kv[i].0@), FrameModel::Bulk(kv[i].1.data@)],
                        ),
                ),
            ),
        ],
    )
}

impl Snap {
    /// The whole store as a `load` request: `[load, [[key, value], ...]]`, the
    /// keys as simple frames and the values as bulk frames, in some order.
    pub fn apply(self, db: &Db) -> (r: Frame)
        ensures
            exists|kv: Seq<(String, Entity)>|
                distinct_keys(kv) && kv_map(kv) == db@ && r.model() == snap_reply(kv),
    {
        let kv = db.snap();
        let ghost kvs = kv@;
        let mut kv = kv;
        let mut elements: Vec<Frame> = Vec::new();
        let mut taken: usize = 0;
        let n = kv.len();
        // Take the pairs off the end, then reverse the frames into place.
        let mut rev: Vec<Frame> = Vec::new();
        while kv.len() > 0
            invariant
                kv@ == kvs.subrange(0, kv@.len() as int),
                kvs.len() == n,
                rev@.len() + kv@.len() == n,
                forall|j: int|
                    0 <= j < rev@.len() ==> (#[trigger] rev@[j]).model() == FrameModel::Array(
                        seq![
                            FrameModel::Simple(kvs[n - 1 - j].0@),
                            FrameModel::Bulk(kvs[n - 1 - j].1.data@),
                        ],
                    ),
            decreases kv@.len(),
        {
            let (k, e) = kv.pop().unwrap();
            let ghost km = k@;
            let ghost vm = e.data@;
            let pair = vec![Frame::Simple(k), Frame::Bulk(e.data)];
            proof {
                crate::frame::lemma_array_model(pair);
                assert(models(pair@) =~= seq![FrameModel::Simple(km), FrameModel::Bulk(vm)]);
            }
            rev.push(Frame::Array(pair));
        }
        while rev.len() > 0
            invariant
                elements@.len() + rev@.len() == n,
                forall|j: int|
                    0 <= j < rev@.len() ==> (#[trigger] rev@[j]).model() == FrameModel::Array(
                        seq![
                            FrameModel::Simple(kvs[n - 1 - j].0@),
                            FrameModel::Bulk(kvs[n - 1 - j].1.data@),
                        ],
                    ),
                forall|j: int|
                    0 <= j < elements@.len() ==> (#[trigger] elements@[j]).model()
                        == FrameModel::Array(
                        seq![FrameModel::Simple(kvs[j].0@), FrameModel::Bulk(kvs[j].1.data@)],
                    ),
            decreases rev@.len(),
        {
            let f = rev.pop().unwrap();
            elements.push(f);
        }
        let load = Frame::Simple(text("load"));
        let ghost em = elements@;
        let inner = Frame::Array(elements);
        let outer = vec![load, inner];
        proof {
            crate::frame::lemma_array_model(elements);
            crate::frame::lemma_array_model(outer);
            assert(models(em) =~= Seq::new(
                kvs.len(),
                |i: int|
                    FrameModel::Array(
                        seq![FrameModel::Simple(kvs[i].0@), FrameModel::Bulk(kvs[i].1.data@)],
                    ),
            ));
            assert(models(outer@) =~= snap_reply(kvs)->Array_0);
        }
        Frame::Array(outer)
    }
}

/// The command that `Command::from_frame` reads from a frame, or which error.
pub open spec fn command_of(f: FrameModel) -> Result<CommandModel, ErrKind> {
    match f {
        FrameModel::Array(items) => if items.len() == 0 {
            Err(ErrKind::EndOfStream)
        } else {
            match text_of(items[0]) {
                None => Err(ErrKind::Other),
                Some(name) => {
                    let rest = items.drop_first();
                    let lower = name_lowercase(name);
                    if lower == "get"@ {
                        if rest.len() == 0 {
                            Err(ErrKind::EndOfStream)
                        } else {
                            match text_of(rest[0]) {
                                None => Err(ErrKind::Other),
                                Some(k) => if rest.len() > 1 {
                                    Err(ErrKind::Other)
                                } else {
                                    Ok(CommandModel::Get(k))
                                },
                            }
                        }
                    } else if lower == "set"@ {
                        match set_of(rest) {
                            Err(e) => Err(e),
                            Ok((k, v)) => if rest.len() > 2 {
                                Err(ErrKind::Other)
                            } else {
                                Ok(CommandModel::SetCmd(k, v))
                            },
                        }
                    } else if lower == "load"@ {
                        if rest.len() == 0 {
                            Err(ErrKind::EndOfStream)
                        } else {
                            match rest[0] {
                                FrameModel::Array(els) => match load_pairs(els) {
                                    Err(e) => Err(e),
                                    Ok(pairs) => if rest.len() > 1 {
                                        Err(ErrKind::Other)
                                    } else {
                                        Ok(CommandModel::Load(pairs))
                                    },
                                },
                                _ => Err(ErrKind::Other),
                            }
                        }
                    } else if lower == "snap"@ {
                        if rest.len() > 0 {
                            Err(ErrKind::Other)
                        } else {
                            Ok(CommandModel::Snap)
                        }
                    } else {
                        Err(ErrKind::Unknown)
                    }
                },
            }
        },
        _ => Err(ErrKind::Other),
    }
}

/// The store after the command `c` is carried out on `m`: `set` stores its
/// pair, `load` each of its pairs in turn; `get` and `snap` leave it as it is.
pub open spec fn applied(m: Map<Seq<char>, Seq<u8>>, c: CommandModel) -> Map<Seq<char>, Seq<u8>> {
    match c {
        CommandModel::Get(_) => m,
        CommandModel::SetCmd(k, v) => m.insert(k, v),
        CommandModel::Load(pairs) => store_all(m, pairs),
        CommandModel::Snap => m,
    }
}

impl Command {
    pub closed spec fn model(&self) -> CommandModel {
        match self {
            Command::Get(g) => CommandModel::Get(g.key_spec()),
            Command::SetCmd(s) => CommandModel::SetCmd(s.key_spec(), s.value_spec()),
            Command::Load(l) => CommandModel::Load(l.pairs()),
            Command::Snap(_) => CommandModel::Snap,
        }
    }

    /// Reads a command from an array frame: its name (in any case), then its
    /// arguments, and nothing after them.
    pub fn from_frame(frame: Frame) -> (r: Result<Command, ParseError>)
        ensures
            match command_of(frame.model()) {
                Ok(c) => r matches Ok(cmd) && cmd.model() == c,
                Err(e) => r matches Err(pe) && matches_err(pe, e),
            },
    {
        let mut parse = Parse::new(frame)?;
        let name = parse.next_string()?;
        let cmd_name = to_lowercase(name.as_str());
        let cmd = if cmd_name == text("get") {
            Command::Get(Get::from_parse(&mut parse)?)
        } else if cmd_name == text("set") {
            let ghost before = parse.remaining();
            let set = SetCmd::from_parse(&mut parse)?;
            proof {
                assert(parse.remaining() =~= before.subrange(2, before.len() as int));
            }
            Command::SetCmd(set)
        } else if cmd_name == text("load") {
            Command::Load(Load::from_parse(&mut parse)?)
        } else if cmd_name == text("snap") {
            Command::Snap(Snap)
        } else {
            return Err(ParseError::Other(text("Could not parse the command")));
        };
        parse.finish()?;
        Ok(cmd)
    }

    /// Whether the command changes the store: `set` and `load` do.
    pub fn writes(&self) -> (r: bool)
        ensures
            r == (self.model() is SetCmd || self.model() is Load),
    {
        match self {
            Command::Get(_) => false,
            Command::SetCmd(_) => true,
            Command::Load(_) => true,
            Command::Snap(_) => false,
        }
    }

    /// Carries the command out on the store and gives the reply frame.
    pub fn apply(self, db: &mut Db) -> (r: Frame)
        ensures
            final(db)@ == applied(old(db)@, self.model()),
            match self.model() {
                CommandModel::Get(k) => r.model() == get_reply(old(db)@, k),
                CommandModel::SetCmd(k, v) => r.model() == FrameModel::Simple("OK"@),
                CommandModel::Load(pairs) => r.model() == FrameModel::Simple("OK"@),
                CommandModel::Snap => exists|kv: Seq<(String, Entity)>|
                    distinct_keys(kv) && kv_map(kv) == old(db)@ && r.model() == snap_reply(kv),
            },
    {
        match self {
            Command::Get(cmd) => cmd.apply(db),
            Command::SetCmd(cmd) => cmd.apply(db),
            Command::Load(cmd) => cmd.apply(db),
            Command::Snap(cmd) => cmd.apply(db),
        }
    }
}

/// A `get` gives back what the last `set` of its key stored, and a `set`
/// leaves the other keys as they were.
pub proof fn law_get_after_set(
    m: Map<Seq<char>, Seq<u8>>,
    k: Seq<char>,
    v: Seq<u8>,
    other: Seq<char>,
)
    ensures
        get_reply(m.insert(k, v), k) == FrameModel::Bulk(v),
        other != k ==> get_reply(m.insert(k, v), other) == get_reply(m, other),
{
}

/// After a `load`, a key holds the value of its last pair in the load; a key
/// of no pair holds what it held before.
pub proof fn law_load_last_wins(
    m: Map<Seq<char>, Seq<u8>>,
    pairs: Seq<(Seq<char>, Seq<u8>)>,
    k: Seq<char>,
)
    ensures
        (forall|i: int| 0 <= i < pairs.len() ==> (#[trigger] pairs[i]).0 != k) ==> get_reply(
            store_all(m, pairs),
            k,
        ) == get_reply(m, k),
        forall|j: int|
            0 <= j < pairs.len() && (#[trigger] pairs[j]).0 == k && (forall|i: int|
                j < i < pairs.len() ==> (#[trigger] pairs[i]).0 != k) ==> get_reply(
                store_all(m, pairs),
                k,
            ) == FrameModel::Bulk(pairs[j].1),
    decreases pairs.len(),
{
    if pairs.len() > 0 {
        let init = pairs.drop_last();
        law_load_last_wins(m, init, k);
        if pairs.last().0 != k {
            assert forall|j: int|
                0 <= j < pairs.len() && (#[trigger] pairs[j]).0 == k && (forall|i: int|
                    j < i < pairs.len() ==> (#[trigger] pairs[i]).0 != k) implies get_reply(
                store_all(m, pairs),
                k,
            ) == FrameModel::Bulk(pairs[j].1) by {
                assert(j < pairs.len() - 1);
                assert(init[j] == pairs[j]);
                assert forall|i: int| j < i < init.len() implies (#[trigger] init[i]).0 != k by {
                    assert(init[i] == pairs[i]);
                }
            }
            if forall|i: int| 0 <= i < pairs.len() ==> (#[trigger] pairs[i]).0 != k {
                assert forall|i: int| 0 <= i < init.len() implies (#[trigger] init[i]).0 != k by {
                    assert(init[i] == pairs[i]);
                }
            }
        } else {
            assert forall|j: int|
                0 <= j < pairs.len() && (#[trigger] pairs[j]).0 == k && (forall|i: int|
                    j < i < pairs.len() ==> (#[trigger] pairs[i]).0 != k) implies get_reply(
                store_all(m, pairs),
                k,
            ) == FrameModel::Bulk(pairs[j].1) by {
                if j < pairs.len() - 1 {
                    let last = pairs.len() - 1;
                    assert(pairs[last].0 == k);
                }
            }
            assert(pairs[pairs.len() - 1].0 == k);
        }
    }
}

/// The store reads the requests a client writes as the commands they were
/// made from: `get k` as a `get` of `k`, `set k v` as a `set` of `v` under `k`.
pub proof fn law_requests_read_back(k: Seq<char>, v: Seq<u8>)
    ensures
        command_of(
            FrameModel::Array(
                seq![FrameModel::Bulk(encode_utf8("get"@)), FrameModel::Bulk(encode_utf8(k))],
            ),
        ) == Ok::<CommandModel, ErrKind>(CommandModel::Get(k)),
        command_of(
            FrameModel::Array(
                seq![
                    FrameModel::Bulk(encode_utf8("set"@)),
                    FrameModel::Bulk(encode_utf8(k)),
                    FrameModel::Bulk(v),
                ],
            ),
        ) == Ok::<CommandModel, ErrKind>(CommandModel::SetCmd(k, v)),
{
    reveal_strlit("get");
    reveal_strlit("set");
    encode_utf8_decode_utf8("get"@);
    encode_utf8_decode_utf8("set"@);
    encode_utf8_decode_utf8(k);
    encode_utf8_valid_utf8("get"@);
    encode_utf8_valid_utf8("set"@);
    encode_utf8_valid_utf8(k);
    assert(is_ascii_text("get"@));
    assert(ascii_lowercase("get"@) =~= "get"@);
    assert(is_ascii_text("set"@));
    assert(ascii_lowercase("set"@) =~= "set"@);
    let g = seq![FrameModel::Bulk(encode_utf8("get"@)), FrameModel::Bulk(encode_utf8(k))];
    assert(g.drop_first() =~= seq![FrameModel::Bulk(encode_utf8(k))]);
    let s = seq![
        FrameModel::Bulk(encode_utf8("set"@)),
        FrameModel::Bulk(encode_utf8(k)),
        FrameModel::Bulk(v),
    ];
    assert(s.drop_first() =~= seq![FrameModel::Bulk(encode_utf8(k)), FrameModel::Bulk(v)]);
}

/// The pairs a snapshot's `load` request carries: each key with its value.
pub open spec fn snap_pairs(kv: Seq<(String, Entity)>) -> Seq<(Seq<char>, Seq<u8>)> {
    Seq::new(kv.len(), |i: int| (kv[i].0@, kv[i].1.data@))
}

/// The elements of a snapshot's `load` request.
pub open spec fn snap_elements(kv: Seq<(String, Entity)>) -> Seq<FrameModel> {
    Seq::new(
        kv.len(),
        |i: int| FrameModel::Array(seq![FrameModel::Simple(kv[i].0@), FrameModel::Bulk(kv[i].1.data@)]),
    )
}

proof fn lemma_load_pairs_of_snap(kv: Seq<(String, Entity)>)
    ensures
        load_pairs(snap_elements(kv)) == Ok::<Seq<(Seq<char>, Seq<u8>)>, ErrKind>(snap_pairs(kv)),
    decreases kv.len(),
{
    if kv.len() > 0 {
        let rest = kv.drop_first();
        lemma_load_pairs_of_snap(rest);
        let els = snap_elements(kv);
        assert(els.drop_first() =~= snap_elements(rest));
        let sub = seq![FrameModel::Simple(kv[0].0@), FrameModel::Bulk(kv[0].1.data@)];
        assert(els[0] == FrameModel::Array(sub));
        assert(set_of(sub) == Ok::<(Seq<char>, Seq<u8>), ErrKind>((kv[0].0@, kv[0].1.data@)));
        assert(snap_pairs(kv) =~= seq![(kv[0].0@, kv[0].1.data@)] + snap_pairs(rest));
    } else {
        assert(snap_pairs(kv) =~= Seq::<(Seq<char>, Seq<u8>)>::empty());
    }
}

/// Loading a snapshot restores the store it was taken of: the store reads a
/// `snap` reply as a `load` of every key with its value, and carrying that
/// out on any store gives each key of the snapshot its value there, the other
/// keys keeping theirs.
pub proof fn law_load_restores_snapshot(kv: Seq<(String, Entity)>, m: Map<Seq<char>, Seq<u8>>)
    requires
        distinct_keys(kv),
    ensures
        command_of(snap_reply(kv)) == Ok::<CommandModel, ErrKind>(CommandModel::Load(snap_pairs(kv))),
        applied(m, CommandModel::Load(snap_pairs(kv))) == m.union_prefer_right(kv_map(kv)),
{
    reveal_strlit("load");
    reveal_strlit("get");
    reveal_strlit("set");
    assert(is_ascii_text("load"@));
    assert(ascii_lowercase("load"@) =~= "load"@);
    let items = snap_reply(kv)->Array_0;
    assert(items.drop_first() =~= seq![FrameModel::Array(snap_elements(kv))]);
    assert(items[1] == FrameModel::Array(snap_elements(kv)));
    lemma_load_pairs_of_snap(kv);
    let pairs = snap_pairs(kv);
    let r = store_all(m, pairs);
    let want = m.union_prefer_right(kv_map(kv));
    assert forall|k: Seq<char>|
        #![trigger r.dom().contains(k)]
        #![trigger want.dom().contains(k)]
        #![trigger r[k]]
        r.dom().contains(k) == want.dom().contains(k) && (r.dom().contains(k) ==> r[k]
            == want[k]) by {
        law_load_last_wins(m, pairs, k);
        if kv_map(kv).contains_key(k) {
            let i = choose|i: int| 0 <= i < kv.len() && #[trigger] kv[i].0@ == k;
            lemma_kv_map_at(kv, i);
            assert(pairs[i].0 == k);
            assert forall|j: int| i < j < pairs.len() implies (#[trigger] pairs[j]).0 != k by {
                assert(kv[j].0@ != kv[i].0@);
            }
            assert(get_reply(r, k) == FrameModel::Bulk(pairs[i].1));
        } else {
            assert forall|j: int| 0 <= j < pairs.len() implies (#[trigger] pairs[j]).0 != k by {
                if pairs[j].0 == k {
                    assert(kv[j].0@ == k);
                }
            }
            assert(get_reply(r, k) == get_reply(m, k));
        }
    }
    assert(r.dom() =~= want.dom());
    assert(r =~= want);
}

} // verus!
