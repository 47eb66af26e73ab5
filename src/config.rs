use vstd::prelude::*;

verus! {

/// Physics parameters of one shape group. Decimal quantities are held in
/// millionths; the angular velocity is in micro-degrees per second.
pub struct ObjectConfig {
    pub group: u16,
    pub velocity: [i64; 2],
    pub angular_velocity: i64,
    pub density: i64,
    pub dynamic: bool,
    pub restitution: i64,
    pub linear_damping: i64,
    pub angular_damping: i64,
    pub friction: i64,
    pub position_fixed: bool,
    pub rotation_fixed: bool,
}

/// Simulation settings of one editor layer. Decimal quantities are held in
/// millionths (`height` in micro-units, `sim_time` in microseconds).
pub struct LayerConfig {
    pub layer: u16,
    pub height: i64,
    pub fps: u32,
    pub keyframe_interval: u16,
    pub gravity: [i64; 2],
    pub objects: Vec<ObjectConfig>,
    pub rotation_duration_modifier: i64,
    pub sim_time: i64,
    pub anchor_id: i32,
    pub ground: bool,
}

/// The whole configuration: where the save lives and what to simulate.
pub struct Config {
    pub level_name: String,
    pub path: String,
    pub backup_path: String,
    pub simulations: Vec<LayerConfig>,
}

pub fn default_fps() -> (r: u32)
    ensures
        r == 60,
{
    60
}

pub fn default_interval() -> (r: u16)
    ensures
        r == 6,
{
    6
}

pub fn default_vel() -> (r: [i64; 2])
    ensures
        r@ == seq![0i64, 0i64],
{
    [0, 0]
}

/// Default gravity: 9.81 times 30 units per second squared, downwards.
pub fn default_gravity() -> (r: [i64; 2])
    ensures
        r@ == seq![0i64, -294_300_000i64],
{
    [0, -294_300_000]
}

pub fn default_objects() -> (r: Vec<ObjectConfig>)
    ensures
        r@.len() == 0,
{
    Vec::new()
}

pub fn default_density() -> (r: i64)
    ensures
        r == 1_000_000,
{
    1_000_000
}

pub fn default_dynamic() -> (r: bool)
    ensures
        r,
{
    true
}

pub fn default_height() -> (r: i64)
    ensures
        r == 2_100_000_000,
{
    2_100_000_000
}

pub fn default_restitution() -> (r: i64)
    ensures
        r == 0,
{
    0
}

pub fn default_linear_damping() -> (r: i64)
    ensures
        r == 100_000,
{
    100_000
}

pub fn default_angular_damping() -> (r: i64)
    ensures
        r == 100_000,
{
    100_000
}

pub fn default_friction() -> (r: i64)
    ensures
        r == 1_000_000,
{
    1_000_000
}

pub fn default_angvel() -> (r: i64)
    ensures
        r == 0,
{
    0
}

pub fn default_pos_fixed() -> (r: bool)
    ensures
        !r,
{
    false
}

pub fn default_ang_fixed() -> (r: bool)
    ensures
        !r,
{
    false
}

pub fn default_rotation_modifier() -> (r: i64)
    ensures
        r == 900_000,
{
    900_000
}

pub fn default_time() -> (r: i64)
    ensures
        r == 5_000_000,
{
    5_000_000
}

pub fn default_anchor() -> (r: i32)
    ensures
        r == 41,
{
    41
}

pub fn default_ground() -> (r: bool)
    ensures
        r,
{
    true
}

impl ObjectConfig {
    /// The default parameters for shape group `group`.
    pub fn new(group: u16) -> (r: ObjectConfig)
        ensures
            r.group == group,
            r.velocity@ == seq![0i64, 0i64],
            r.angular_velocity == 0,
            r.density == 1_000_000,
            r.dynamic,
            r.restitution == 0,
            r.linear_damping == 100_000,
            r.angular_damping == 100_000,
            r.friction == 1_000_000,
            !r.position_fixed,
            !r.rotation_fixed,
    {
        ObjectConfig {
            group,
            velocity: default_vel(),
            angular_velocity: default_angvel(),
            density: default_density(),
            dynamic: default_dynamic(),
            restitution: default_restitution(),
            linear_damping: default_linear_damping(),
            angular_damping: default_angular_damping(),
            friction: default_friction(),
            position_fixed: default_pos_fixed(),
            rotation_fixed: default_ang_fixed(),
        }
    }
}

} // verus!
