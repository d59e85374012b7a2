//! The keymap: for every layer and every position, what a press does.

use vstd::prelude::*;
use crate::key_code;

verus! {

/// A maintenance action of the firmware.
#[derive(Clone, Copy, Debug, PartialEq, Eq, Structural)]
pub enum CustomAction {
    /// Restart into the USB mass-storage bootloader.
    Uf2,
    /// Reset the device.
    Reset,
    /// Store the current base layer as the one to start with.
    ChangeDefaultLayer,
}

/// What a position of a layer stands for.
#[derive(Clone, Copy, Debug, PartialEq, Eq, Structural)]
pub enum Action {
    /// Nothing happens, and no lower layer is asked.
    NoOp,
    /// The next lower active layer decides.
    Trans,
    /// The key with this key code is held while the switch is down.
    KeyCode(u8),
    /// The layer with this number is active while the switch is down.
    Layer(usize),
    /// A maintenance action is requested.
    Custom(CustomAction),
}

/// The actions of one layer, by row and column.
pub type LayerTable = [[Action; 3]; 3];

/// The mathematical form of a keymap: layers of rows of actions.
pub type Layers = Seq<Seq<Seq<Action>>>;

/// The mathematical form of a list of layer tables.
pub open spec fn tables(layers: Seq<LayerTable>) -> Layers {
    Seq::new(layers.len(), |l: int| Seq::new(3, |r: int| layers[l][r]@))
}

/// Whether an action can stand in a keymap of `depth` layers: a layer it
/// names has to exist.
pub open spec fn target_exists(depth: nat, a: Action) -> bool {
    match a {
        Action::Layer(t) => t < depth,
        _ => true,
    }
}

/// Whether `m` has at least one layer, every layer the shape of the switch
/// matrix, and no action that names a layer beyond the last.
pub open spec fn well_formed_layers(m: Layers) -> bool {
    &&& m.len() >= 1
    &&& forall|l: int| 0 <= l < m.len() ==> (#[trigger] m[l]).len() == 3
    &&& forall|l: int, r: int| 0 <= l < m.len() && 0 <= r < 3 ==> (#[trigger] m[l][r]).len() == 3
    &&& forall|l: int, r: int, c: int|
        0 <= l < m.len() && 0 <= r < 3 && 0 <= c < 3 ==> target_exists(m.len(), #[trigger] m[l][r][c])
}

/// Why a list of layer tables is refused as a keymap.
#[derive(Clone, Copy, Debug, PartialEq, Eq, Structural)]
pub enum KeymapError {
    /// The list is empty.
    NoLayers,
    /// Some action names a layer that the list does not have.
    UnknownLayer,
}

/// A checked keymap.
pub struct Keymap {
    layers: Vec<LayerTable>,
}

impl View for Keymap {
    type V = Layers;

    closed spec fn view(&self) -> Layers {
        tables(self.layers@)
    }
}

impl Keymap {
    /// What every keymap satisfies.
    pub open spec fn wf(&self) -> bool {
        well_formed_layers(self@)
    }

    /// Checks a list of layer tables and makes a keymap of it.
    pub fn new(layers: Vec<LayerTable>) -> (made: Result<Keymap, KeymapError>)
        ensures
            match made {
                Ok(k) => k@ == tables(layers@) && k.wf(),
                Err(KeymapError::NoLayers) => layers@.len() == 0,
                Err(KeymapError::UnknownLayer) => layers@.len() > 0 && !well_formed_layers(
                    tables(layers@),
                ),
            },
    {
        let depth = layers.len();
        if depth == 0 {
            return Err(KeymapError::NoLayers);
        }
        let ghost m = tables(layers@);
        let mut l: usize = 0;
        while l < depth
            invariant
                l <= depth,
                depth == layers@.len(),
                m == tables(layers@),
                forall|x: int, r: int, c: int|
                    0 <= x < l && 0 <= r < 3 && 0 <= c < 3 ==> target_exists(
                        depth as nat,
                        #[trigger] m[x][r][c],
                    ),
            decreases depth - l,
        {
            let mut r: usize = 0;
            while r < 3
                invariant
                    l < depth,
                    r <= 3,
                    depth == layers@.len(),
                    m == tables(layers@),
                    forall|x: int, y: int, c: int|
                        0 <= x < l && 0 <= y < 3 && 0 <= c < 3 ==> target_exists(
                            depth as nat,
                            #[trigger] m[x][y][c],
                        ),
                    forall|y: int, c: int|
                        0 <= y < r && 0 <= c < 3 ==> target_exists(
                            depth as nat,
                            #[trigger] m[l as int][y][c],
                        ),
                decreases 3 - r,
            {
                let mut c: usize = 0;
                while c < 3
                    invariant
                        l < depth,
                        r < 3,
                        c <= 3,
                        depth == layers@.len(),
                        m == tables(layers@),
                        forall|z: int|
                            0 <= z < c ==> target_exists(
                                depth as nat,
                                #[trigger] m[l as int][r as int][z],
                            ),
                    decreases 3 - c,
                {
                    let a = layers[l][r][c];
                    match a {
                        Action::Layer(t) => {
                            if t >= depth {
                                return Err(KeymapError::UnknownLayer);
                            }
                        },
                        _ => {},
                    }
                    c += 1;
                }
                r += 1;
            }
            l += 1;
        }
        Ok(Keymap { layers })
    }

    /// The number of layers.
    pub fn depth(&self) -> (n: usize)
        ensures
            n == self@.len(),
    {
        self.layers.len()
    }

    /// The action of `layer` at `(row, col)`; `NoOp` beyond the matrix.
    pub fn get(&self, layer: usize, row: u8, col: u8) -> (a: Action)
        requires
            layer < self@.len(),
        ensures
            a == if row < 3 && col < 3 {
                self@[layer as int][row as int][col as int]
            } else {
                Action::NoOp
            },
    {
        if row < 3 && col < 3 {
            self.layers[layer][row as usize][col as usize]
        } else {
            Action::NoOp
        }
    }
}

/// The keymap of the keypad as a value: two alternative base layers and,
/// as layer 2, the maintenance layer.
pub open spec fn standard_layers() -> Layers {
    seq![
        seq![
            seq![Action::KeyCode(key_code::UP), Action::KeyCode(key_code::Z), Action::KeyCode(key_code::X)],
            seq![Action::KeyCode(key_code::LEFT), Action::KeyCode(key_code::DOWN), Action::KeyCode(key_code::RIGHT)],
            seq![Action::Layer(2), Action::KeyCode(key_code::LSHIFT), Action::KeyCode(key_code::SPACE)],
        ],
        seq![
            seq![Action::KeyCode(key_code::UP), Action::KeyCode(key_code::A), Action::KeyCode(key_code::S)],
            seq![Action::KeyCode(key_code::LEFT), Action::KeyCode(key_code::DOWN), Action::KeyCode(key_code::RIGHT)],
            seq![Action::Layer(2), Action::KeyCode(key_code::LSHIFT), Action::KeyCode(key_code::SPACE)],
        ],
        seq![
            seq![Action::Trans, Action::Trans, Action::Custom(CustomAction::Uf2)],
            seq![Action::NoOp, Action::NoOp, Action::Custom(CustomAction::ChangeDefaultLayer)],
            seq![Action::Trans, Action::Trans, Action::Custom(CustomAction::Reset)],
        ],
    ]
}

/// The keymap of the keypad.
pub fn standard_keymap() -> (k: Keymap)
    ensures
        k.wf(),
        k@ == standard_layers(),
{
    let base_rows: [[Action; 3]; 2] = [
        [Action::KeyCode(key_code::LEFT), Action::KeyCode(key_code::DOWN), Action::KeyCode(key_code::RIGHT)],
        [Action::Layer(2), Action::KeyCode(key_code::LSHIFT), Action::KeyCode(key_code::SPACE)],
    ];
    let m8_run: LayerTable = [
        [Action::KeyCode(key_code::UP), Action::KeyCode(key_code::Z), Action::KeyCode(key_code::X)],
        base_rows[0],
        base_rows[1],
    ];
    let m8c: LayerTable = [
        [Action::KeyCode(key_code::UP), Action::KeyCode(key_code::A), Action::KeyCode(key_code::S)],
        base_rows[0],
        base_rows[1],
    ];
    let special: LayerTable = [
        [Action::Trans, Action::Trans, Action::Custom(CustomAction::Uf2)],
        [Action::NoOp, Action::NoOp, Action::Custom(CustomAction::ChangeDefaultLayer)],
        [Action::Trans, Action::Trans, Action::Custom(CustomAction::Reset)],
    ];
    let mut layers: Vec<LayerTable> = Vec::new();
    layers.push(m8_run);
    layers.push(m8c);
    layers.push(special);
    proof {
        let m = tables(layers@);
        assert(m[0] =~~= standard_layers()[0]);
        assert(m[1] =~~= standard_layers()[1]);
        assert(m[2] =~~= standard_layers()[2]);
    }
    Keymap { layers }
}

} // verus!
