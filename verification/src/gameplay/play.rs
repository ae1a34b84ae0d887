//! The client side: input state, the input packet and the per-frame logic.

use crate::app::AppState;
use crate::decimal::{format_count, nat_digits, UNIT};
use crate::gameplay::server_game_logic::{Position, Returnable, World};
use crate::table::{index_is, push_keeps_places, Table};
use crate::wire::{encode_packet, packet_text};
use vstd::prelude::*;
use vstd::string::*;

verus! {

/// The four movement axes a player can hold. Each is independent of the others.
#[derive(Clone, Copy, Debug, PartialEq, Eq, Structural)]
pub struct Controls {
    pub left: bool,
    pub right: bool,
    pub up: bool,
    pub down: bool,
}

/// What a client tells the server: the held controls and the session identifier.
#[derive(Clone, Debug)]
pub struct Packet {
    pub controls: Controls,
    pub id: String,
}

/// The mathematical value of a [`Packet`].
pub struct PacketView {
    pub controls: Controls,
    pub id: Seq<char>,
}

impl View for Packet {
    type V = PacketView;

    open spec fn view(&self) -> PacketView {
        PacketView { controls: self.controls, id: self.id@ }
    }
}

impl PartialEq for Packet {
    fn eq(&self, other: &Packet) -> (same: bool) {
        self.controls == other.controls && self.id == other.id
    }
}

impl vstd::std_specs::cmp::PartialEqSpecImpl for Packet {
    open spec fn obeys_eq_spec() -> bool {
        true
    }

    open spec fn eq_spec(&self, other: &Packet) -> bool {
        self.controls == other.controls && self.id@ == other.id@
    }
}

impl Controls {
    /// No axis held.
    pub fn idle() -> (c: Controls)
        ensures
            c == (Controls { left: false, right: false, up: false, down: false }),
    {
        Controls { left: false, right: false, up: false, down: false }
    }
}

/// How long a session identifier is.
pub const ID_LENGTH: usize = 10;

/// The side of the square drawn for a player, in pixels.
pub const PLAYER_SIZE: u32 = 40;

/// A key of the keyboard, as far as the game tells keys apart.
#[derive(Clone, Copy, Debug, PartialEq, Eq, Structural)]
pub enum Key {
    Up,
    Down,
    Left,
    Right,
    Other,
}

/// An input event, as far as the game tells events apart.
#[derive(Clone, Copy, Debug, PartialEq, Eq, Structural)]
pub enum InputEvent {
    KeyDown(Key),
    KeyUp(Key),
    Quit,
    Other,
}

/// A player as the client draws it. The coordinates count billionths of a world
/// unit, the sides pixels.
#[derive(Clone, Copy, Debug, PartialEq, Eq, Structural)]
pub struct GameObject {
    pub active: bool,
    pub x: i64,
    pub y: i64,
    pub width: u32,
    pub height: u32,
}

/// A rectangle to draw, in pixels. `own` tells the local player from the others.
#[derive(Clone, Copy, Debug, PartialEq, Eq, Structural)]
pub struct Rectangle {
    pub x: i32,
    pub y: i32,
    pub width: u32,
    pub height: u32,
    pub own: bool,
}

/// What one frame asks of the transport and of the renderer.
pub struct Frame {
    /// The text of the input packet to send, where one is due.
    pub transmit: Option<String>,
    /// The rectangles to draw, in this order.
    pub rectangles: Vec<Rectangle>,
    /// Whether the transport failed, so that the client has to stop.
    pub stopped: bool,
}

/// The client's game state.
pub struct GameLogic {
    pub controls: Controls,
    pub last_packet_sent: Option<Packet>,
    pub instance_id: String,
    pub players: Table<GameObject>,
}

/// The players a client knows: their ids, oldest first, and the entity of each.
pub struct Scene {
    pub ids: Seq<Seq<char>>,
    pub entities: Seq<GameObject>,
}

impl Scene {
    /// Whether `id` has an entity.
    pub open spec fn has(self, id: Seq<char>) -> bool {
        self.ids.contains(id)
    }

    /// The entity of `id`; meaningful only where `has(id)`.
    pub open spec fn entity(self, id: Seq<char>) -> GameObject {
        self.entities[self.ids.index_of(id)]
    }

    /// One entity for each id, and no id twice.
    pub open spec fn wf(self) -> bool {
        self.ids.len() == self.entities.len() && self.ids.no_duplicates()
    }
}

/// Whether `c` is an ASCII letter or digit.
pub open spec fn is_alphanumeric(c: char) -> bool {
    ('A' <= c <= 'Z') || ('a' <= c <= 'z') || ('0' <= c <= '9')
}

/// The controls after one event: a key that goes down sets its axis, a key that goes
/// up clears it; everything else leaves the controls alone.
pub open spec fn pressed(c: Controls, event: InputEvent) -> Controls {
    match event {
        InputEvent::KeyDown(Key::Up) => Controls { up: true, ..c },
        InputEvent::KeyDown(Key::Down) => Controls { down: true, ..c },
        InputEvent::KeyDown(Key::Left) => Controls { left: true, ..c },
        InputEvent::KeyDown(Key::Right) => Controls { right: true, ..c },
        InputEvent::KeyUp(Key::Up) => Controls { up: false, ..c },
        InputEvent::KeyUp(Key::Down) => Controls { down: false, ..c },
        InputEvent::KeyUp(Key::Left) => Controls { left: false, ..c },
        InputEvent::KeyUp(Key::Right) => Controls { right: false, ..c },
        _ => c,
    }
}

/// The controls after a run of events, in order.
pub open spec fn sampled(c: Controls, events: Seq<InputEvent>) -> Controls
    decreases events.len(),
{
    if events.len() == 0 {
        c
    } else {
        pressed(sampled(c, events.drop_last()), events.last())
    }
}

/// Whether a run of events asks to quit.
pub open spec fn quit_seen(events: Seq<InputEvent>) -> bool {
    exists|i: int| 0 <= i < events.len() && events[i] == InputEvent::Quit
}

/// The pixel of a coordinate: its whole world units, rounded toward zero and brought
/// into the range of a pixel.
pub open spec fn pixel(v: int) -> int {
    let whole = if v >= 0 { v / (UNIT as int) } else { -((-v) / (UNIT as int)) };
    if whole < i32::MIN {
        i32::MIN as int
    } else if whole > i32::MAX {
        i32::MAX as int
    } else {
        whole
    }
}

/// The entity of a player seen for the first time at `p`.
pub open spec fn spawned(p: Position) -> GameObject {
    GameObject { active: true, x: p.x, y: p.y, width: PLAYER_SIZE, height: PLAYER_SIZE }
}

/// The scene after one entry of a snapshot: a known player takes the reported
/// position, an unknown one gets an entity there.
pub open spec fn sighted(scene: Scene, id: Seq<char>, p: Position) -> Scene {
    if scene.has(id) {
        let at = scene.ids.index_of(id);
        Scene { ids: scene.ids, entities: scene.entities.update(at, GameObject { x: p.x, y: p.y, ..scene.entities[at] }) }
    } else {
        Scene { ids: scene.ids.push(id), entities: scene.entities.push(spawned(p)) }
    }
}

/// The scene after the first `n` entries of a snapshot.
pub open spec fn reconciled(scene: Scene, w: World, n: int) -> Scene
    decreases n,
{
    if n <= 0 {
        scene
    } else {
        sighted(reconciled(scene, w, n - 1), w.ids[n - 1], w.positions[n - 1])
    }
}

/// The rectangle of an entity that stands at `p`.
pub open spec fn rectangle_of(entity: GameObject, p: Position, own: bool) -> Rectangle {
    Rectangle { x: pixel(p.x as int) as i32, y: pixel(p.y as int) as i32, width: entity.width, height: entity.height, own }
}

/// The rectangles drawn for the first `n` entries of a snapshot: one for each player
/// that was known before its entry, at the reported position. A player seen for the
/// first time is not drawn in that frame.
pub open spec fn drawn(scene: Scene, w: World, n: int, own_id: Seq<char>) -> Seq<Rectangle>
    decreases n,
{
    if n <= 0 {
        Seq::empty()
    } else {
        let before = reconciled(scene, w, n - 1);
        let id = w.ids[n - 1];
        if before.has(id) {
            drawn(scene, w, n - 1, own_id).push(rectangle_of(before.entity(id), w.positions[n - 1], id == own_id))
        } else {
            drawn(scene, w, n - 1, own_id)
        }
    }
}

/// The mathematical value of a client's game state.
pub struct GameLogicView {
    pub controls: Controls,
    pub last_packet_sent: Option<PacketView>,
    pub instance_id: Seq<char>,
    pub players: Scene,
}

impl GameLogicView {
    /// The input packet that stands for the current state.
    pub open spec fn packet(self) -> PacketView {
        PacketView { controls: self.controls, id: self.instance_id }
    }

    /// Whether an input packet is due: whether none was sent yet, or the last one
    /// sent differs from the current one.
    pub open spec fn due(self) -> bool {
        self.last_packet_sent != Some(self.packet())
    }

    /// The state after a frame in which the packet that was due went out: it is the
    /// last packet sent, the snapshot is applied and the events are.
    pub open spec fn after(self, events: Seq<InputEvent>, received: Option<World>) -> GameLogicView {
        GameLogicView {
            controls: sampled(self.controls, events),
            last_packet_sent: Some(self.packet()),
            instance_id: self.instance_id,
            players: match received {
                Some(w) => reconciled(self.players, w, w.ids.len() as int),
                None => self.players,
            },
        }
    }
}

impl View for GameLogic {
    type V = GameLogicView;

    open spec fn view(&self) -> GameLogicView {
        GameLogicView {
            controls: self.controls,
            last_packet_sent: match self.last_packet_sent {
                Some(p) => Some(p@),
                None => None,
            },
            instance_id: self.instance_id@,
            players: Scene { ids: self.players.keys(), entities: self.players.values() },
        }
    }
}

/// Draws `len` characters from `rand`'s `Alphanumeric` distribution with the
/// thread's generator. The distribution samples from the letters `A` to `Z`, `a` to
/// `z` and the digits only, and the result has exactly `len` of them.
#[verifier::external_body]
fn random_alphanumeric(len: usize) -> (text: String)
    ensures
        text@.len() == len,
        forall|i: int| 0 <= i < text@.len() ==> is_alphanumeric(#[trigger] text@[i]),
{
    rand::Rng::sample_iter(rand::thread_rng(), &rand::distributions::Alphanumeric).take(len).map(char::from).collect()
}

/// The line that shows the frame rate: `FPS: ` and the count.
pub open spec fn framerate_text(fps: u32) -> Seq<char> {
    "FPS: "@ + nat_digits(fps as nat)
}

/// Writes the line that shows the frame rate.
pub fn display_framerate(fps: u32) -> (text: String)
    ensures
        text@ == framerate_text(fps),
{
    let mut text = String::from_str("FPS: ");
    let count = format_count(fps as u64);
    text.append(count.as_str());
    text
}

/// The pixel of a coordinate.
pub fn to_pixel(v: i64) -> (px: i32)
    ensures
        px == pixel(v as int),
{
    let whole: i64 = v / (UNIT as i64);
    if whole < i32::MIN as i64 {
        i32::MIN
    } else if whole > i32::MAX as i64 {
        i32::MAX
    } else {
        whole as i32
    }
}

/// Applies one input event to the controls.
pub fn press(c: Controls, event: InputEvent) -> (after: Controls)
    ensures
        after == pressed(c, event),
{
    let mut after = c;
    match event {
        InputEvent::KeyDown(Key::Up) => {
            after.up = true;
        },
        InputEvent::KeyDown(Key::Down) => {
            after.down = true;
        },
        InputEvent::KeyDown(Key::Left) => {
            after.left = true;
        },
        InputEvent::KeyDown(Key::Right) => {
            after.right = true;
        },
        InputEvent::KeyUp(Key::Up) => {
            after.up = false;
        },
        InputEvent::KeyUp(Key::Down) => {
            after.down = false;
        },
        InputEvent::KeyUp(Key::Left) => {
            after.left = false;
        },
        InputEvent::KeyUp(Key::Right) => {
            after.right = false;
        },
        _ => {},
    }
    after
}

impl GameLogic {
    /// What holds of every client state: no player twice.
    pub open spec fn wf(self) -> bool {
        self.players.wf()
    }

    /// The players of a client state are a well-formed scene.
    pub proof fn holds_a_scene(self)
        requires
            self.wf(),
        ensures
            self@.players.wf(),
    {
        self.players.shape();
    }

    /// A client state for the session `instance_id`: nothing held, nothing sent, no
    /// player known.
    pub fn with_id(instance_id: String) -> (logic: GameLogic)
        ensures
            logic.wf(),
            logic@.controls == (Controls { left: false, right: false, up: false, down: false }),
            logic@.last_packet_sent is None,
            logic@.instance_id == instance_id@,
            logic@.players.ids == Seq::<Seq<char>>::empty(),
            logic@.players.entities == Seq::<GameObject>::empty(),
    {
        GameLogic { controls: Controls::idle(), last_packet_sent: None, instance_id, players: Table::new() }
    }

    /// A client state for a new session, whose identifier is ten random letters and
    /// digits.
    pub fn new() -> (logic: GameLogic)
        ensures
            logic.wf(),
            logic@.controls == (Controls { left: false, right: false, up: false, down: false }),
            logic@.last_packet_sent is None,
            logic@.instance_id.len() == ID_LENGTH,
            forall|i: int| 0 <= i < ID_LENGTH ==> is_alphanumeric(#[trigger] logic@.instance_id[i]),
            logic@.players.ids == Seq::<Seq<char>>::empty(),
            logic@.players.entities == Seq::<GameObject>::empty(),
    {
        GameLogic::with_id(random_alphanumeric(ID_LENGTH))
    }

    /// The input packet to send in this frame, where one is due.
    pub fn outgoing(&self) -> (packet: Option<Packet>)
        ensures
            packet is Some == self@.due(),
            packet matches Some(p) ==> p@ == self@.packet(),
    {
        let packet = Packet { controls: self.controls, id: self.instance_id.clone() };
        let due = match &self.last_packet_sent {
            Some(last) => !(*last == packet),
            None => true,
        };
        if due {
            Some(packet)
        } else {
            None
        }
    }

    /// Applies a run of input events: keys to the controls, a quit to `app_state`.
    pub fn event_handler(&mut self, app_state: &mut AppState, events: &Vec<InputEvent>)
        ensures
            final(self)@.controls == sampled(old(self)@.controls, events@),
            final(self)@.last_packet_sent == old(self)@.last_packet_sent,
            final(self)@.instance_id == old(self)@.instance_id,
            final(self).players == old(self).players,
            final(app_state).is_running == (old(app_state).is_running && !quit_seen(events@)),
            final(app_state).state == old(app_state).state,
    {
        let mut i: usize = 0;
        proof {
            assert(events@.take(0) =~= Seq::<InputEvent>::empty());
        }
        while i < events.len()
            invariant
                i <= events@.len(),
                self.controls == sampled(old(self).controls, events@.take(i as int)),
                self.last_packet_sent == old(self).last_packet_sent,
                self.instance_id == old(self).instance_id,
                self.players == old(self).players,
                app_state.is_running == (old(app_state).is_running && !quit_seen(events@.take(i as int))),
                app_state.state == old(app_state).state,
            decreases events@.len() - i,
        {
            let event = events[i];
            proof {
                let shorter = events@.take(i as int);
                let longer = events@.take(i + 1);
                assert(longer.drop_last() =~= shorter);
                assert(longer.last() == event);
                if quit_seen(shorter) {
                    let j = choose|j: int| 0 <= j < shorter.len() && shorter[j] == InputEvent::Quit;
                    assert(longer[j] == InputEvent::Quit);
                }
                if event == InputEvent::Quit {
                    assert(longer[i as int] == InputEvent::Quit);
                }
                if quit_seen(longer) && event != InputEvent::Quit {
                    let j = choose|j: int| 0 <= j < longer.len() && longer[j] == InputEvent::Quit;
                    assert(shorter[j] == InputEvent::Quit);
                }
            }
            self.controls = press(self.controls, event);
            match event {
                InputEvent::Quit => {
                    app_state.is_running = false;
                },
                _ => {},
            }
            i += 1;
        }
        proof {
            assert(events@.take(events@.len() as int) =~= events@);
        }
    }

    /// Applies a snapshot to the local players, entry by entry: a known player takes
    /// the reported position and is drawn there, an unknown one gets an entity. No
    /// player is ever removed. Returns the rectangles to draw.
    pub fn reconcile(&mut self, snapshot: &Returnable) -> (rectangles: Vec<Rectangle>)
        requires
            old(self).wf(),
            snapshot.wf(),
        ensures
            final(self).wf(),
            final(self)@.controls == old(self)@.controls,
            final(self)@.last_packet_sent == old(self)@.last_packet_sent,
            final(self)@.instance_id == old(self)@.instance_id,
            final(self)@.players == reconciled(old(self)@.players, snapshot@, snapshot@.ids.len() as int),
            rectangles@ == drawn(
                old(self)@.players,
                snapshot@,
                snapshot@.ids.len() as int,
                old(self)@.instance_id,
            ),
    {
        let n = snapshot.players_data.len();
        let mut rectangles: Vec<Rectangle> = Vec::new();
        let mut i: usize = 0;
        while i < n
            invariant
                i <= n,
                snapshot.wf(),
                n == snapshot@.ids.len(),
                n == snapshot@.positions.len(),
                self.wf(),
                self.controls == old(self).controls,
                self.last_packet_sent == old(self).last_packet_sent,
                self.instance_id == old(self).instance_id,
                self@.players == reconciled(old(self)@.players, snapshot@, i as int),
                rectangles@ == drawn(old(self)@.players, snapshot@, i as int, old(self)@.instance_id),
            decreases n - i,
        {
            let id = snapshot.players_data.key(i);
            let p = *snapshot.players_data.value(i);
            proof {
                self.players.shape();
            }
            match self.players.find(id) {
                Some(at) => {
                    let mut player = *self.players.value(at);
                    player.x = p.x;
                    player.y = p.y;
                    rectangles.push(
                        Rectangle {
                            x: to_pixel(p.x),
                            y: to_pixel(p.y),
                            width: player.width,
                            height: player.height,
                            own: *id == self.instance_id,
                        },
                    );
                    self.players.replace(at, player);
                },
                None => {
                    self.players.append(
                        id.clone(),
                        GameObject { active: true, x: p.x, y: p.y, width: PLAYER_SIZE, height: PLAYER_SIZE },
                    );
                },
            }
            i += 1;
        }
        rectangles
    }

    /// One frame of the client, in its fixed order: the input packet for the current
    /// controls is sent where it differs from the last one sent; the latest snapshot,
    /// if there is one, is applied to the local players; the input events of the
    /// frame are applied to the controls.
    pub fn update(&mut self, app_state: &mut AppState, events: &Vec<InputEvent>, received: &Option<Returnable>) -> (frame:
        Frame)
        requires
            old(self).wf(),
            received matches Some(snapshot) ==> snapshot.wf(),
        ensures
            final(self).wf(),
            !frame.stopped,
            frame.transmit is Some == (old(self)@.due() && packet_text(old(self)@.packet()) is Some),
            frame.transmit matches Some(text) ==> packet_text(old(self)@.packet()) == Some(text@),
            final(self)@.last_packet_sent == if frame.transmit is Some {
                Some(old(self)@.packet())
            } else {
                old(self)@.last_packet_sent
            },
            final(self)@.instance_id == old(self)@.instance_id,
            final(self)@.controls == sampled(old(self)@.controls, events@),
            (frame.transmit is Some || !old(self)@.due()) ==> final(self)@ == old(self)@.after(
                events@,
                match received {
                    Some(snapshot) => Some(snapshot@),
                    None => None,
                },
            ),
            final(app_state).is_running == (old(app_state).is_running && !quit_seen(events@)),
            final(app_state).state == old(app_state).state,
            match received {
                Some(snapshot) => {
                    &&& final(self)@.players == reconciled(old(self)@.players, snapshot@, snapshot@.ids.len() as int)
                    &&& frame.rectangles@ == drawn(
                        old(self)@.players,
                        snapshot@,
                        snapshot@.ids.len() as int,
                        old(self)@.instance_id,
                    )
                },
                None => final(self)@.players == old(self)@.players && frame.rectangles@.len() == 0,
            },
    {
        let mut transmit: Option<String> = None;
        match self.outgoing() {
            Some(packet) => {
                match encode_packet(&packet) {
                    Some(text) => {
                        transmit = Some(text);
                        self.last_packet_sent = Some(packet);
                    },
                    None => {},
                }
            },
            None => {},
        }
        let rectangles = match received {
            Some(snapshot) => self.reconcile(snapshot),
            None => Vec::new(),
        };
        self.event_handler(app_state, events);
        Frame { transmit, rectangles, stopped: false }
    }
}

/// What one entry of a snapshot does to a scene: its player is known afterwards and
/// stands where the entry says; every other player is as before; nobody leaves.
pub proof fn sighted_one(scene: Scene, id: Seq<char>, p: Position)
    requires
        scene.wf(),
    ensures
        sighted(scene, id, p).wf(),
        sighted(scene, id, p).has(id),
        sighted(scene, id, p).entity(id).x == p.x,
        sighted(scene, id, p).entity(id).y == p.y,
        forall|other: Seq<char>| scene.has(other) ==> #[trigger] sighted(scene, id, p).has(other),
        forall|other: Seq<char>|
            other != id && scene.has(other) ==> #[trigger] sighted(scene, id, p).entity(other) == scene.entity(other),
{
    let after = sighted(scene, id, p);
    if scene.has(id) {
        assert(after.ids == scene.ids);
    } else {
        assert forall|other: Seq<char>| scene.has(other) implies #[trigger] after.has(other) by {
            push_keeps_places(scene.ids, id, other);
        }
        assert forall|other: Seq<char>| other != id && scene.has(other) implies #[trigger] after.entity(other)
            == scene.entity(other) by {
            push_keeps_places(scene.ids, id, other);
        }
        assert(after.ids[scene.ids.len() as int] == id);
        assert(after.ids.no_duplicates()) by {
            assert forall|i: int, j: int| 0 <= i < after.ids.len() && 0 <= j < after.ids.len() && i != j implies after.ids[i]
                != after.ids[j] by {
                if i < scene.ids.len() && j < scene.ids.len() {
                } else if i < scene.ids.len() {
                    assert(scene.ids.contains(scene.ids[i]));
                } else {
                    assert(scene.ids.contains(scene.ids[j]));
                }
            }
        }
        index_is(after.ids, scene.ids.len() as int);
    }
}

/// No ghost removal: a player that the client knows stays known, whatever the
/// snapshots that follow hold.
pub proof fn known_players_stay(scene: Scene, w: World, n: int, id: Seq<char>)
    requires
        scene.wf(),
        scene.has(id),
    ensures
        reconciled(scene, w, n).wf(),
        reconciled(scene, w, n).has(id),
    decreases n,
{
    if n > 0 {
        known_players_stay(scene, w, n - 1, id);
        sighted_one(reconciled(scene, w, n - 1), w.ids[n - 1], w.positions[n - 1]);
    }
}

/// Applying entries of a snapshot keeps the scene well-formed.
pub proof fn reconciled_is_scene(scene: Scene, w: World, n: int)
    requires
        scene.wf(),
    ensures
        reconciled(scene, w, n).wf(),
    decreases n,
{
    if n > 0 {
        reconciled_is_scene(scene, w, n - 1);
        sighted_one(reconciled(scene, w, n - 1), w.ids[n - 1], w.positions[n - 1]);
    }
}

/// After the first `n` entries of a snapshot, the player of each of them stands
/// where its entry says.
pub proof fn entries_are_shown(scene: Scene, w: World, n: int, j: int)
    requires
        scene.wf(),
        w.wf(),
        0 <= j < n <= w.ids.len(),
    ensures
        reconciled(scene, w, n).has(w.ids[j]),
        reconciled(scene, w, n).entity(w.ids[j]).x == w.positions[j].x,
        reconciled(scene, w, n).entity(w.ids[j]).y == w.positions[j].y,
    decreases n,
{
    let before = reconciled(scene, w, n - 1);
    reconciled_is_scene(scene, w, n - 1);
    sighted_one(before, w.ids[n - 1], w.positions[n - 1]);
    if j < n - 1 {
        entries_are_shown(scene, w, n - 1, j);
        assert(w.ids[j] != w.ids[n - 1]);
    }
}

/// Authority: once a snapshot is applied, every player it reports stands exactly
/// where the snapshot says, the local player among them.
pub proof fn reported_position_is_shown(scene: Scene, w: World, id: Seq<char>)
    requires
        scene.wf(),
        w.wf(),
        w.has(id),
    ensures
        reconciled(scene, w, w.ids.len() as int).has(id),
        reconciled(scene, w, w.ids.len() as int).entity(id).x == w.position(id).x,
        reconciled(scene, w, w.ids.len() as int).entity(id).y == w.position(id).y,
{
    let j = w.ids.index_of(id);
    entries_are_shown(scene, w, w.ids.len() as int, j);
}

/// The client never moves a player by itself: a frame without a snapshot leaves every
/// player where it was, whatever keys are held or pressed.
pub proof fn without_snapshot_nobody_moves(state: GameLogicView, events: Seq<InputEvent>)
    ensures
        state.after(events, None).players == state.players,
{
}

/// How many input packets go out over a run of frames, each given by its events,
/// where every packet that is due goes out.
pub open spec fn transmissions(state: GameLogicView, frames: Seq<Seq<InputEvent>>) -> nat
    decreases frames.len(),
{
    if frames.len() == 0 {
        0
    } else {
        let first: nat = if state.due() { 1 } else { 0 };
        first + transmissions(state.after(frames.first(), None), frames.drop_first())
    }
}

/// Whether none of `frames` changes the controls `c`.
pub open spec fn idle(c: Controls, frames: Seq<Seq<InputEvent>>) -> bool {
    forall|i: int| 0 <= i < frames.len() ==> sampled(c, #[trigger] frames[i]) == c
}

/// Once the current packet is sent, frames that do not change the controls send
/// nothing.
pub proof fn settled_client_is_silent(state: GameLogicView, frames: Seq<Seq<InputEvent>>)
    requires
        !state.due(),
        idle(state.controls, frames),
    ensures
        transmissions(state, frames) == 0,
    decreases frames.len(),
{
    if frames.len() > 0 {
        let next = state.after(frames.first(), None);
        assert(sampled(state.controls, frames[0]) == state.controls);
        assert(next.packet() == state.packet());
        assert forall|i: int| 0 <= i < frames.drop_first().len() implies sampled(
            next.controls,
            #[trigger] frames.drop_first()[i],
        ) == next.controls by {
            assert(frames.drop_first()[i] == frames[i + 1]);
        }
        settled_client_is_silent(next, frames.drop_first());
    }
}

/// Idempotent idle: a client that has sent nothing yet sends exactly one input
/// packet over any number of frames that do not change the controls: the first.
pub proof fn idle_client_sends_once(state: GameLogicView, frames: Seq<Seq<InputEvent>>)
    requires
        state.last_packet_sent is None,
        frames.len() > 0,
        idle(state.controls, frames),
    ensures
        state.due(),
        transmissions(state, frames) == 1,
{
    let next = state.after(frames.first(), None);
    assert(sampled(state.controls, frames[0]) == state.controls);
    assert(next.packet() == state.packet());
    assert forall|i: int| 0 <= i < frames.drop_first().len() implies sampled(
        next.controls,
        #[trigger] frames.drop_first()[i],
    ) == next.controls by {
        assert(frames.drop_first()[i] == frames[i + 1]);
    }
    settled_client_is_silent(next, frames.drop_first());
}

} // verus!
