use vstd::prelude::*;

verus! {

/// Why a mapper configuration cannot be built.
#[derive(Clone, Copy, Debug, PartialEq, Eq, Structural)]
pub enum MapperBuildError {
    /// Whether to compute odometry was never set.
    MissingOdometryConfig,
    /// The grid dimensions were never set.
    MissingDimensions,
}

/// A complete mapper configuration over the scalar type `T`. A scalar left
/// at `None` takes its default: a resolution of one, confidence factors and
/// a maximum confidence of zero.
#[derive(Clone, Copy, Debug)]
pub struct HectorMapperSettings<T, const N: usize> {
    pub with_odometry: bool,
    pub dimensions: [usize; N],
    pub resolution: Option<T>,
    pub occupied_factor: Option<T>,
    pub free_factor: Option<T>,
    pub max_confidence: Option<T>,
}

/// Collects the configuration of a mapper. Whether to compute odometry and
/// the grid dimensions must be set; the scalars are optional.
#[derive(Clone, Copy, Debug)]
pub struct HectorMapperBuilder<T, const N: usize> {
    with_odometry: Option<bool>,
    dimensions: Option<[usize; N]>,
    resolution: Option<T>,
    occupied_factor: Option<T>,
    free_factor: Option<T>,
    max_confidence: Option<T>,
}

impl<T: Copy, const N: usize> HectorMapperBuilder<T, N> {
    pub closed spec fn spec_with_odometry(&self) -> Option<bool> {
        self.with_odometry
    }

    pub closed spec fn spec_dimensions(&self) -> Option<[usize; N]> {
        self.dimensions
    }

    pub closed spec fn spec_resolution(&self) -> Option<T> {
        self.resolution
    }

    pub closed spec fn spec_occupied_factor(&self) -> Option<T> {
        self.occupied_factor
    }

    pub closed spec fn spec_free_factor(&self) -> Option<T> {
        self.free_factor
    }

    pub closed spec fn spec_max_confidence(&self) -> Option<T> {
        self.max_confidence
    }

    /// An empty builder: nothing set.
    pub fn default() -> (r: Self)
        ensures
            r.spec_with_odometry().is_none(),
            r.spec_dimensions().is_none(),
            r.spec_resolution().is_none(),
            r.spec_occupied_factor().is_none(),
            r.spec_free_factor().is_none(),
            r.spec_max_confidence().is_none(),
    {
        HectorMapperBuilder {
            with_odometry: None,
            dimensions: None,
            resolution: None,
            occupied_factor: None,
            free_factor: None,
            max_confidence: None,
        }
    }

    /// Sets whether the mapper computes odometry by registering clouds.
    pub fn with_odometry_calculation(self, calculate_odometry: bool) -> (r: Self)
        ensures
            r.spec_with_odometry() == Some(calculate_odometry),
            r.spec_dimensions() == self.spec_dimensions(),
            r.spec_resolution() == self.spec_resolution(),
            r.spec_occupied_factor() == self.spec_occupied_factor(),
            r.spec_free_factor() == self.spec_free_factor(),
            r.spec_max_confidence() == self.spec_max_confidence(),
    {
        HectorMapperBuilder { with_odometry: Some(calculate_odometry), ..self }
    }

    /// Sets the grid dimensions, in cells.
    pub fn with_dimensions(self, dimensions: [usize; N]) -> (r: Self)
        ensures
            r.spec_with_odometry() == self.spec_with_odometry(),
            r.spec_dimensions() == Some(dimensions),
            r.spec_resolution() == self.spec_resolution(),
            r.spec_occupied_factor() == self.spec_occupied_factor(),
            r.spec_free_factor() == self.spec_free_factor(),
            r.spec_max_confidence() == self.spec_max_confidence(),
    {
        HectorMapperBuilder { dimensions: Some(dimensions), ..self }
    }

    /// Sets the size of a grid cell.
    pub fn with_resolution(self, resolution: T) -> (r: Self)
        ensures
            r.spec_with_odometry() == self.spec_with_odometry(),
            r.spec_dimensions() == self.spec_dimensions(),
            r.spec_resolution() == Some(resolution),
            r.spec_occupied_factor() == self.spec_occupied_factor(),
            r.spec_free_factor() == self.spec_free_factor(),
            r.spec_max_confidence() == self.spec_max_confidence(),
    {
        HectorMapperBuilder { resolution: Some(resolution), ..self }
    }

    /// Sets the confidence factor of an occupied observation.
    pub fn with_occupied_confidence_factor(self, occupied_factor: T) -> (r: Self)
        ensures
            r.spec_with_odometry() == self.spec_with_odometry(),
            r.spec_dimensions() == self.spec_dimensions(),
            r.spec_resolution() == self.spec_resolution(),
            r.spec_occupied_factor() == Some(occupied_factor),
            r.spec_free_factor() == self.spec_free_factor(),
            r.spec_max_confidence() == self.spec_max_confidence(),
    {
        HectorMapperBuilder { occupied_factor: Some(occupied_factor), ..self }
    }

    /// Sets the confidence factor of a free observation.
    pub fn with_free_confidence_factor(self, free_factor: T) -> (r: Self)
        ensures
            r.spec_with_odometry() == self.spec_with_odometry(),
            r.spec_dimensions() == self.spec_dimensions(),
            r.spec_resolution() == self.spec_resolution(),
            r.spec_occupied_factor() == self.spec_occupied_factor(),
            r.spec_free_factor() == Some(free_factor),
            r.spec_max_confidence() == self.spec_max_confidence(),
    {
        HectorMapperBuilder { free_factor: Some(free_factor), ..self }
    }

    /// Sets the confidence above which occupied observations stop adding.
    pub fn with_maximum_confidence(self, max_confidence: T) -> (r: Self)
        ensures
            r.spec_with_odometry() == self.spec_with_odometry(),
            r.spec_dimensions() == self.spec_dimensions(),
            r.spec_resolution() == self.spec_resolution(),
            r.spec_occupied_factor() == self.spec_occupied_factor(),
            r.spec_free_factor() == self.spec_free_factor(),
            r.spec_max_confidence() == Some(max_confidence),
    {
        HectorMapperBuilder { max_confidence: Some(max_confidence), ..self }
    }

    /// Checks that the required settings are present and hands out the
    /// complete configuration.
    pub fn build(self) -> (r: Result<HectorMapperSettings<T, N>, MapperBuildError>)
        ensures
            self.spec_with_odometry().is_none() ==> r == Err::<HectorMapperSettings<T, N>, MapperBuildError>(
                MapperBuildError::MissingOdometryConfig,
            ),
            self.spec_with_odometry().is_some() && self.spec_dimensions().is_none()
                ==> r == Err::<HectorMapperSettings<T, N>, MapperBuildError>(MapperBuildError::MissingDimensions),
            self.spec_with_odometry().is_some() && self.spec_dimensions().is_some() ==> {
                &&& r.is_ok()
                &&& r.unwrap().with_odometry == self.spec_with_odometry().unwrap()
                &&& r.unwrap().dimensions == self.spec_dimensions().unwrap()
                &&& r.unwrap().resolution == self.spec_resolution()
                &&& r.unwrap().occupied_factor == self.spec_occupied_factor()
                &&& r.unwrap().free_factor == self.spec_free_factor()
                &&& r.unwrap().max_confidence == self.spec_max_confidence()
            },
    {
        let with_odometry = match self.with_odometry {
            Some(w) => w,
            None => return Err(MapperBuildError::MissingOdometryConfig),
        };
        let dimensions = match self.dimensions {
            Some(d) => d,
            None => return Err(MapperBuildError::MissingDimensions),
        };
        Ok(HectorMapperSettings {
            with_odometry,
            dimensions,
            resolution: self.resolution,
            occupied_factor: self.occupied_factor,
            free_factor: self.free_factor,
            max_confidence: self.max_confidence,
        })
    }
}

/// The frame index after `frame_index`: indices run through `1..=255` and
/// wrap back to `1`, since `0` marks a cell that no frame has updated.
pub open spec fn next_frame_index_spec(frame_index: u8) -> u8 {
    if frame_index == 255 { 1 } else { (frame_index + 1) as u8 }
}

/// The mapper's bookkeeping between point clouds: whether it computes
/// odometry, the current frame index, and whether a non-empty previous cloud
/// is held.
pub struct MapperFrameState {
    with_odometry: bool,
    frame_index: u8,
    has_last_cloud: bool,
}

impl MapperFrameState {
    pub closed spec fn spec_with_odometry(&self) -> bool {
        self.with_odometry
    }

    pub closed spec fn spec_frame_index(&self) -> u8 {
        self.frame_index
    }

    pub closed spec fn spec_has_last_cloud(&self) -> bool {
        self.has_last_cloud
    }

    /// A fresh mapper: frame one, no previous cloud.
    pub fn new(with_odometry: bool) -> (r: Self)
        ensures
            r.spec_with_odometry() == with_odometry,
            r.spec_frame_index() == 1,
            !r.spec_has_last_cloud(),
    {
        MapperFrameState { with_odometry, frame_index: 1, has_last_cloud: false }
    }

    /// The frame index that updates of the current cloud carry.
    pub fn frame_index(&self) -> (r: u8)
        ensures
            r == self.spec_frame_index(),
    {
        self.frame_index
    }

    /// Takes in a new point cloud of `cloud_len` points: returns whether to
    /// register the previous cloud against it, keeps it as the previous cloud,
    /// and advances the frame index when the cloud starts a new frame.
    ///
    /// Registration runs only when odometry is on, the cloud starts a new
    /// frame, and a non-empty previous cloud exists.
    pub fn push_cloud(&mut self, is_new_frame: bool, cloud_len: usize) -> (register: bool)
        ensures
            register == (old(self).spec_with_odometry() && is_new_frame && old(self).spec_has_last_cloud()),
            final(self).spec_with_odometry() == old(self).spec_with_odometry(),
            final(self).spec_has_last_cloud() == (cloud_len > 0),
            final(self).spec_frame_index() == (if is_new_frame {
                next_frame_index_spec(old(self).spec_frame_index())
            } else {
                old(self).spec_frame_index()
            }),
    {
        let register = self.with_odometry && is_new_frame && self.has_last_cloud;
        self.has_last_cloud = cloud_len > 0;
        if is_new_frame {
            self.frame_index = next_frame_index(self.frame_index);
        }
        register
    }
}

/// The frame index after `frame_index`, skipping the reserved `0`.
pub fn next_frame_index(frame_index: u8) -> (r: u8)
    ensures
        r == next_frame_index_spec(frame_index),
        r != 0,
{
    if frame_index == 255 { 1 } else { frame_index + 1 }
}

/// However many frames pass, a mapper's frame index never takes the value
/// reserved for cells that were never updated.
pub proof fn lemma_frame_index_never_zero(frame_index: u8, new_frames: Seq<bool>)
    requires
        frame_index != 0,
    ensures
        frames_after(frame_index, new_frames) != 0,
    decreases new_frames.len(),
{
    if new_frames.len() > 0 {
        lemma_frame_index_never_zero(frame_index, new_frames.drop_last());
    }
}

/// The frame index after clouds that start a new frame or not, in order.
pub open spec fn frames_after(frame_index: u8, new_frames: Seq<bool>) -> u8
    decreases new_frames.len(),
{
    if new_frames.len() == 0 {
        frame_index
    } else {
        let prev = frames_after(frame_index, new_frames.drop_last());
        if new_frames.last() { next_frame_index_spec(prev) } else { prev }
    }
}

} // verus!
