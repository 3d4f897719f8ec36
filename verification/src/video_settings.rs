//! What a camera can deliver, and the settings that take effect on the
//! next start.

use vstd::prelude::*;
use vstd::string::StringExecFns;
use crate::stable_sort::{lemma_stable_sorted_rearranges, sort_stable, stable_sorted, Ranked};
use crate::text::{decimal, decimal_string};

verus! {

/// A pixel format that the camera offers.
#[derive(Debug, Clone)]
pub struct FormatInfo {
    /// Four-character code, such as `YUYV` or `MJPG`.
    pub fourcc: String,
    /// Description for people.
    pub description: String,
}

/// A frame size.
#[derive(Debug, Clone, Copy, PartialEq, Eq, Hash, Structural)]
pub struct Resolution {
    pub width: u32,
    pub height: u32,
}

impl Resolution {
    /// The frame size of the given width and height.
    pub fn new(width: u32, height: u32) -> (r: Self)
        ensures
            r == (Resolution { width, height }),
    {
        Resolution { width, height }
    }

    /// The size as text: width, an `x`, height.
    pub open spec fn text(self) -> Seq<char> {
        decimal(self.width as nat) + seq!['x'] + decimal(self.height as nat)
    }

    /// The size as text, such as `1920x1080`.
    pub fn display(&self) -> (r: String)
        ensures
            r@ == self.text(),
    {
        proof {
            reveal_strlit("x");
            assert("x"@ =~= seq!['x']);
        }
        let mut out = decimal_string(self.width);
        out.append("x");
        let height = decimal_string(self.height);
        out.append(height.as_str());
        out
    }

    /// Pixels in a frame of this size.
    pub open spec fn area(self) -> int {
        self.width * self.height
    }
}

/// A frame rate as the interval between two frames, in seconds:
/// `numerator / denominator`.
#[derive(Debug, Clone, Copy, PartialEq, Eq, Structural)]
pub struct FrameRate {
    /// Numerator of the interval.
    pub numerator: u32,
    /// Denominator of the interval.
    pub denominator: u32,
}

impl FrameRate {
    /// Whole frames per second: the rate `denominator / numerator`
    /// rounded down, and 0 for an interval without a numerator.
    pub open spec fn whole(self) -> int {
        if self.numerator > 0 {
            self.denominator as int / self.numerator as int
        } else {
            0
        }
    }

    /// The rate of one frame every `numerator / denominator` seconds.
    pub fn from_fraction(numerator: u32, denominator: u32) -> (r: Self)
        ensures
            r == (FrameRate { numerator, denominator }),
    {
        FrameRate { numerator, denominator }
    }

    /// The rate of `fps` frames per second: an interval of `1 / fps`.
    pub fn from_fps(fps: u32) -> (r: Self)
        ensures
            r == (FrameRate { numerator: 1, denominator: fps }),
            r.whole() == fps,
    {
        FrameRate { numerator: 1, denominator: fps }
    }

    /// The one rate taken for a camera that offers a range of intervals:
    /// its fastest, which is the shortest interval, unless that interval
    /// has no numerator.
    pub fn from_shortest_interval(numerator: u32, denominator: u32) -> (r: Option<Self>)
        ensures
            r == if numerator > 0 {
                Some(FrameRate { numerator, denominator })
            } else {
                None
            },
    {
        if numerator > 0 {
            Some(FrameRate { numerator, denominator })
        } else {
            None
        }
    }

    /// Whole frames per second.
    pub fn whole_fps(&self) -> (fps: u32)
        ensures
            fps as int == self.whole(),
    {
        if self.numerator > 0 {
            self.denominator / self.numerator
        } else {
            0
        }
    }
}

/// A frame size with the rates the camera offers at it.
#[derive(Debug, Clone)]
pub struct ResolutionInfo {
    pub width: u32,
    pub height: u32,
    pub framerates: Vec<FrameRate>,
}

impl ResolutionInfo {
    /// Whether one of the offered rates is `fps` whole frames per second.
    pub open spec fn offers(self, fps: u32) -> bool {
        exists|k: int| 0 <= k < self.framerates@.len() && (#[trigger] self.framerates@[k]).whole() == fps
    }

    /// Whether one of the offered rates is `fps` whole frames per second.
    pub fn has_framerate(&self, fps: u32) -> (r: bool)
        ensures
            r == self.offers(fps),
    {
        let n: usize = self.framerates.len();
        let mut k: usize = 0;
        while k < n
            invariant
                k <= n,
                n == self.framerates@.len(),
                forall|j: int| 0 <= j < k ==> (#[trigger] self.framerates@[j]).whole() != fps,
            decreases n - k,
        {
            if self.framerates[k].whole_fps() == fps {
                return true;
            }
            k += 1;
        }
        false
    }
}

/// The settings in effect.
#[derive(Debug, Clone)]
pub struct CurrentVideoSettings {
    pub width: u32,
    pub height: u32,
    pub fps: u32,
    /// Four-character code of the format in use.
    pub format: String,
}

/// Everything known of what a camera can deliver.
#[derive(Debug, Clone)]
pub struct CameraCapabilities {
    /// The pixel formats on offer.
    pub formats: Vec<FormatInfo>,
    /// The frame sizes on offer, each with its rates.
    pub resolutions: Vec<ResolutionInfo>,
    /// The settings in effect.
    pub current: CurrentVideoSettings,
    /// Whether the camera answered every question.
    pub complete: bool,
}

/// Position of the first entry of that size, or the length where there
/// is none.
pub open spec fn position_of_size(resolutions: Seq<ResolutionInfo>, width: u32, height: u32) -> int
    decreases resolutions.len(),
{
    if resolutions.len() == 0 {
        0
    } else if resolutions[0].width == width && resolutions[0].height == height {
        0
    } else {
        1 + position_of_size(resolutions.skip(1), width, height)
    }
}

/// `position_of_size` names the first entry of the size.
pub proof fn lemma_position_of_size(resolutions: Seq<ResolutionInfo>, width: u32, height: u32)
    ensures
        0 <= position_of_size(resolutions, width, height) <= resolutions.len(),
        position_of_size(resolutions, width, height) < resolutions.len() ==> {
            let r = resolutions[position_of_size(resolutions, width, height)];
            r.width == width && r.height == height
        },
        forall|j: int|
            0 <= j < position_of_size(resolutions, width, height) ==> !((
            #[trigger] resolutions[j]).width == width && resolutions[j].height == height),
    decreases resolutions.len(),
{
    if resolutions.len() > 0 && !(resolutions[0].width == width && resolutions[0].height == height) {
        let rest = resolutions.skip(1);
        lemma_position_of_size(rest, width, height);
        assert forall|j: int| 0 <= j < position_of_size(resolutions, width, height) implies !((
        #[trigger] resolutions[j]).width == width && resolutions[j].height == height) by {
            if j > 0 {
                assert(resolutions[j] == rest[j - 1]);
            }
        }
    }
}

/// An entry of the size before which none has it is the one that
/// `position_of_size` gives; so is the length where none has it.
pub proof fn lemma_position_of_size_is(resolutions: Seq<ResolutionInfo>, width: u32, height: u32, at: int)
    requires
        0 <= at <= resolutions.len(),
        at < resolutions.len() ==> resolutions[at].width == width && resolutions[at].height == height,
        forall|j: int|
            0 <= j < at ==> !((#[trigger] resolutions[j]).width == width && resolutions[j].height
                == height),
    ensures
        position_of_size(resolutions, width, height) == at,
{
    lemma_position_of_size(resolutions, width, height);
    let p = position_of_size(resolutions, width, height);
    if p < at {
        assert(!(resolutions[p].width == width && resolutions[p].height == height));
    }
}

/// Why requested settings are refused.
#[derive(Debug, Clone, Copy, PartialEq, Eq, Structural)]
pub enum SettingsError {
    /// The camera does not offer the frame size.
    InvalidResolution,
    /// The camera does not offer the rate at that frame size.
    InvalidFramerate,
}

/// The verdict on requested settings: the frame size must be among the
/// camera's, and the rate among those of the first entry of that size.
pub open spec fn settings_verdict(resolutions: Seq<ResolutionInfo>, width: u32, height: u32, fps: u32) -> Result<
    (),
    SettingsError,
> {
    let at = position_of_size(resolutions, width, height);
    if at >= resolutions.len() {
        Err(SettingsError::InvalidResolution)
    } else if !resolutions[at].offers(fps) {
        Err(SettingsError::InvalidFramerate)
    } else {
        Ok(())
    }
}

/// Position of the first entry of that frame size in a list.
pub fn find_size(resolutions: &Vec<ResolutionInfo>, width: u32, height: u32) -> (at: Option<usize>)
    ensures
        match at {
            Some(i) => i as int == position_of_size(resolutions@, width, height) && i < resolutions@.len(),
            None => position_of_size(resolutions@, width, height) == resolutions@.len(),
        },
{
    let n: usize = resolutions.len();
    let mut i: usize = 0;
    while i < n
        invariant
            i <= n,
            n == resolutions@.len(),
            forall|j: int|
                0 <= j < i ==> !((#[trigger] resolutions@[j]).width == width && resolutions@[j].height
                    == height),
        decreases n - i,
    {
        if resolutions[i].width == width && resolutions[i].height == height {
            proof {
                lemma_position_of_size_is(resolutions@, width, height, i as int);
            }
            return Some(i);
        }
        i += 1;
    }
    proof {
        lemma_position_of_size_is(resolutions@, width, height, n as int);
    }
    None
}

impl CameraCapabilities {
    /// Position of the first entry of that frame size.
    pub fn find_resolution(&self, width: u32, height: u32) -> (at: Option<usize>)
        ensures
            match at {
                Some(i) => i as int == position_of_size(self.resolutions@, width, height) && i
                    < self.resolutions@.len(),
                None => position_of_size(self.resolutions@, width, height) == self.resolutions@.len(),
            },
    {
        find_size(&self.resolutions, width, height)
    }

    /// Checks requested settings against what the camera offers.
    pub fn validate(&self, width: u32, height: u32, fps: u32) -> (r: Result<(), SettingsError>)
        ensures
            r == settings_verdict(self.resolutions@, width, height, fps),
    {
        match self.find_resolution(width, height) {
            None => Err(SettingsError::InvalidResolution),
            Some(i) => {
                if self.resolutions[i].has_framerate(fps) {
                    Ok(())
                } else {
                    Err(SettingsError::InvalidFramerate)
                }
            },
        }
    }
}

/// Settings that wait for the next start.
#[derive(Debug, Clone, Copy, PartialEq, Eq, Structural)]
pub struct PendingVideoSettings {
    pub width: Option<u32>,
    pub height: Option<u32>,
    pub fps: Option<u32>,
    /// Whether a restart is needed for them to take effect.
    pub needs_restart: bool,
}

impl Default for PendingVideoSettings {
    fn default() -> (r: Self)
        ensures
            r == PendingVideoSettings::nothing(),
    {
        PendingVideoSettings { width: None, height: None, fps: None, needs_restart: false }
    }
}

/// Whether a proposed value differs from the one in effect.
pub open spec fn differs(proposed: Option<u32>, current: u32) -> bool {
    match proposed {
        Some(v) => v != current,
        None => false,
    }
}

/// A proposed value, kept only where it differs from the one in effect.
pub open spec fn kept(proposed: Option<u32>, current: u32) -> Option<u32> {
    if differs(proposed, current) {
        proposed
    } else {
        None
    }
}

fn value_differs(proposed: Option<u32>, current: u32) -> (r: bool)
    ensures
        r == differs(proposed, current),
{
    match proposed {
        Some(v) => v != current,
        None => false,
    }
}

impl PendingVideoSettings {
    /// Nothing pending.
    pub open spec fn nothing() -> PendingVideoSettings {
        PendingVideoSettings { width: None, height: None, fps: None, needs_restart: false }
    }

    /// What is pending once settings are proposed while `current` is in
    /// effect: those that differ, with a restart needed; nothing where
    /// none differs.
    pub open spec fn proposed(
        current_width: u32,
        current_height: u32,
        current_fps: u32,
        width: Option<u32>,
        height: Option<u32>,
        fps: Option<u32>,
    ) -> PendingVideoSettings {
        if differs(width, current_width) || differs(height, current_height) || differs(
            fps,
            current_fps,
        ) {
            PendingVideoSettings {
                width: kept(width, current_width),
                height: kept(height, current_height),
                fps: kept(fps, current_fps),
                needs_restart: true,
            }
        } else {
            PendingVideoSettings::nothing()
        }
    }

    /// Whether anything is pending.
    pub fn has_changes(&self) -> (r: bool)
        ensures
            r == (self.width.is_some() || self.height.is_some() || self.fps.is_some()),
    {
        self.width.is_some() || self.height.is_some() || self.fps.is_some()
    }

    /// Forgets what is pending.
    pub fn clear(&mut self)
        ensures
            *final(self) == PendingVideoSettings::nothing(),
    {
        self.width = None;
        self.height = None;
        self.fps = None;
        self.needs_restart = false;
    }

    /// Takes proposed settings while `current_*` are in effect. Returns
    /// whether anything differs, in which case the proposal is to be
    /// written to the stored configuration.
    pub fn propose(
        &mut self,
        current_width: u32,
        current_height: u32,
        current_fps: u32,
        width: Option<u32>,
        height: Option<u32>,
        fps: Option<u32>,
    ) -> (changed: bool)
        ensures
            *final(self) == PendingVideoSettings::proposed(
                current_width,
                current_height,
                current_fps,
                width,
                height,
                fps,
            ),
            changed == final(self).needs_restart,
    {
        let width_changed = value_differs(width, current_width);
        let height_changed = value_differs(height, current_height);
        let fps_changed = value_differs(fps, current_fps);
        if width_changed || height_changed || fps_changed {
            self.width = if width_changed {
                width
            } else {
                None
            };
            self.height = if height_changed {
                height
            } else {
                None
            };
            self.fps = if fps_changed {
                fps
            } else {
                None
            };
            self.needs_restart = true;
            true
        } else {
            self.clear();
            false
        }
    }
}

/// What became of a request for new settings.
#[derive(Debug, Clone, Copy, PartialEq, Eq, Structural)]
pub enum SettingsOutcome {
    /// The camera does not offer them; nothing changed.
    Rejected(SettingsError),
    /// They are the settings in effect; nothing is pending any more.
    Unchanged,
    /// They are pending and take effect on the next start; the stored
    /// configuration is to be written.
    RestartRequired,
}

/// Handles a request for new settings while `current_*` are in effect.
///
/// The request is checked against the camera's capabilities where they
/// are known; without them it is taken on trust. A refused request leaves
/// what is pending untouched.
pub fn request_settings(
    capabilities: Option<&CameraCapabilities>,
    pending: &mut PendingVideoSettings,
    current_width: u32,
    current_height: u32,
    current_fps: u32,
    width: u32,
    height: u32,
    fps: u32,
) -> (outcome: SettingsOutcome)
    ensures
        outcome == request_outcome(capabilities, current_width, current_height, current_fps, width, height, fps),
        *final(pending) == match outcome {
            SettingsOutcome::Rejected(_) => *old(pending),
            SettingsOutcome::Unchanged => PendingVideoSettings::nothing(),
            SettingsOutcome::RestartRequired => PendingVideoSettings::proposed(
                current_width,
                current_height,
                current_fps,
                Some(width),
                Some(height),
                Some(fps),
            ),
        },
{
    match capabilities {
        Some(caps) => {
            match caps.validate(width, height, fps) {
                Err(e) => {
                    return SettingsOutcome::Rejected(e);
                },
                Ok(()) => {},
            }
        },
        None => {},
    }
    if width == current_width && height == current_height && fps == current_fps {
        pending.clear();
        SettingsOutcome::Unchanged
    } else {
        pending.propose(current_width, current_height, current_fps, Some(width), Some(height), Some(fps));
        SettingsOutcome::RestartRequired
    }
}

/// The outcome of a request: refused where the known capabilities do not
/// offer it, unchanged where it is what is in effect, else pending.
pub open spec fn request_outcome(
    capabilities: Option<&CameraCapabilities>,
    current_width: u32,
    current_height: u32,
    current_fps: u32,
    width: u32,
    height: u32,
    fps: u32,
) -> SettingsOutcome {
    let verdict = match capabilities {
        Some(caps) => settings_verdict(caps.resolutions@, width, height, fps),
        None => Ok(()),
    };
    match verdict {
        Err(e) => SettingsOutcome::Rejected(e),
        Ok(_) => if width == current_width && height == current_height && fps == current_fps {
            SettingsOutcome::Unchanged
        } else {
            SettingsOutcome::RestartRequired
        },
    }
}

/// The frame sizes tried where a camera offers a range of sizes rather
/// than a list.
pub open spec fn common_sizes() -> Seq<Resolution> {
    seq![
        Resolution { width: 320, height: 240 },
        Resolution { width: 640, height: 480 },
        Resolution { width: 800, height: 600 },
        Resolution { width: 1024, height: 768 },
        Resolution { width: 1280, height: 720 },
        Resolution { width: 1280, height: 960 },
        Resolution { width: 1920, height: 1080 },
    ]
}

/// A range of frame sizes.
#[derive(Debug, Clone, Copy, PartialEq, Eq, Structural)]
pub struct SizeRange {
    pub min_width: u32,
    pub max_width: u32,
    pub min_height: u32,
    pub max_height: u32,
}

impl SizeRange {
    /// Whether a size lies in the range, ends included.
    pub open spec fn holds(self, size: Resolution) -> bool {
        self.min_width <= size.width <= self.max_width && self.min_height <= size.height
            <= self.max_height
    }

    /// Whether a size lies in the range.
    pub fn contains(&self, size: &Resolution) -> (r: bool)
        ensures
            r == self.holds(*size),
    {
        size.width >= self.min_width && size.width <= self.max_width && size.height >= self.min_height
            && size.height <= self.max_height
    }
}

/// The common frame sizes that lie in a range, smallest first.
pub fn common_resolutions_within(range: &SizeRange) -> (sizes: Vec<Resolution>)
    ensures
        sizes@ == common_sizes().filter(|size: Resolution| range.holds(size)),
{
    let candidates: [Resolution; 7] = [
        Resolution { width: 320, height: 240 },
        Resolution { width: 640, height: 480 },
        Resolution { width: 800, height: 600 },
        Resolution { width: 1024, height: 768 },
        Resolution { width: 1280, height: 720 },
        Resolution { width: 1280, height: 960 },
        Resolution { width: 1920, height: 1080 },
    ];
    assert(candidates@ =~= common_sizes());
    let ghost keep = |size: Resolution| range.holds(size);
    let mut sizes: Vec<Resolution> = Vec::new();
    let mut i: usize = 0;
    assert(candidates@.take(0).filter(keep) =~= Seq::<Resolution>::empty());
    while i < 7
        invariant
            i <= 7,
            candidates@ == common_sizes(),
            keep == (|size: Resolution| range.holds(size)),
            sizes@ == candidates@.take(i as int).filter(keep),
        decreases 7 - i,
    {
        let size = candidates[i];
        proof {
            let upto = candidates@.take(i + 1);
            assert(upto.drop_last() =~= candidates@.take(i as int));
            assert(upto.last() == size);
            reveal(Seq::filter);
        }
        if range.contains(&size) {
            sizes.push(size);
        }
        i += 1;
    }
    assert(candidates@.take(7) =~= candidates@);
    sizes
}

/// Whether no frame size is listed twice.
pub open spec fn distinct_sizes(resolutions: Seq<ResolutionInfo>) -> bool {
    forall|i: int, j: int|
        0 <= i < j < resolutions.len() ==> !((#[trigger] resolutions[i]).width == (
        #[trigger] resolutions[j]).width && resolutions[i].height == resolutions[j].height)
}

/// Sorting lists no frame size twice that was listed once.
pub proof fn lemma_sorted_sizes_distinct(resolutions: Seq<ResolutionInfo>)
    requires
        distinct_sizes(resolutions),
    ensures
        distinct_sizes(stable_sorted(resolutions)),
{
    let from = lemma_stable_sorted_rearranges(resolutions);
    let sorted = stable_sorted(resolutions);
    assert forall|i: int, j: int| 0 <= i < j < sorted.len() implies !((#[trigger] sorted[i]).width == (
    #[trigger] sorted[j]).width && sorted[i].height == sorted[j].height) by {
        assert(sorted[i] == resolutions[from[i]] && sorted[j] == resolutions[from[j]]);
        assert(from[i] != from[j]);
        if from[i] < from[j] {
            assert(!(resolutions[from[i]].width == resolutions[from[j]].width
                && resolutions[from[i]].height == resolutions[from[j]].height));
        } else {
            assert(!(resolutions[from[j]].width == resolutions[from[i]].width
                && resolutions[from[j]].height == resolutions[from[i]].height));
        }
    }
}

/// The entry for a frame size that a list would gain if rates were
/// merged into it: the rates already listed for the size, then the new.
pub open spec fn merged_rates(resolutions: Seq<ResolutionInfo>, width: u32, height: u32, rates: Seq<
    FrameRate,
>) -> Seq<FrameRate> {
    let at = position_of_size(resolutions, width, height);
    if at < resolutions.len() {
        resolutions[at].framerates@ + rates
    } else {
        rates
    }
}

/// Adds the rates found for a frame size to a list of sizes: to the
/// first entry of that size, or to a new entry at the end. A list that
/// holds no size twice stays so.
pub fn merge_resolution(resolutions: &mut Vec<ResolutionInfo>, width: u32, height: u32, rates: Vec<FrameRate>)
    ensures
        ({
            let at = position_of_size(old(resolutions)@, width, height);
            &&& final(resolutions)@.len() == if at < old(resolutions)@.len() {
                old(resolutions)@.len()
            } else {
                old(resolutions)@.len() + 1
            }
            &&& forall|j: int|
                0 <= j < old(resolutions)@.len() && j != at ==> #[trigger] final(resolutions)@[j] == old(
                    resolutions,
                )@[j]
            &&& final(resolutions)@[at].width == width
            &&& final(resolutions)@[at].height == height
            &&& final(resolutions)@[at].framerates@ == merged_rates(old(resolutions)@, width, height, rates@)
        }),
        distinct_sizes(old(resolutions)@) ==> distinct_sizes(final(resolutions)@),
{
    let mut rates = rates;
    proof {
        lemma_position_of_size(resolutions@, width, height);
    }
    let ghost before = resolutions@;
    match find_size(resolutions, width, height) {
        Some(i) => {
            resolutions[i].framerates.append(&mut rates);
            assert(forall|j: int| 0 <= j < before.len() && j != i ==> resolutions@[j] == before[j]);
            assert(forall|j: int|
                0 <= j < before.len() ==> (#[trigger] resolutions@[j]).width == before[j].width
                    && resolutions@[j].height == before[j].height);
        },
        None => {
            resolutions.push(ResolutionInfo { width, height, framerates: rates });
            assert(forall|j: int| 0 <= j < before.len() ==> #[trigger] resolutions@[j] == before[j]);
        },
    }
    proof {
        if distinct_sizes(before) {
            let after = resolutions@;
            assert forall|i: int, j: int| 0 <= i < j < after.len() implies !((
            #[trigger] after[i]).width == (#[trigger] after[j]).width && after[i].height
                == after[j].height) by {
                if j < before.len() {
                    assert(!(before[i].width == before[j].width && before[i].height == before[j].height));
                }
            }
        }
    }
}

/// The rates assumed where a camera does not list any: 30 and 15 frames
/// per second.
pub fn default_framerates() -> (rates: Vec<FrameRate>)
    ensures
        rates@ == seq![
            FrameRate { numerator: 1, denominator: 30 },
            FrameRate { numerator: 1, denominator: 15 },
        ],
{
    let mut rates: Vec<FrameRate> = Vec::new();
    rates.push(FrameRate::from_fps(30));
    rates.push(FrameRate::from_fps(15));
    assert(rates@ =~= seq![
        FrameRate { numerator: 1, denominator: 30 },
        FrameRate { numerator: 1, denominator: 15 },
    ]);
    rates
}

/// The sizes assumed where a camera lists none: 640x480 and 320x240, each
/// at the default rates.
pub fn default_resolutions() -> (resolutions: Vec<ResolutionInfo>)
    ensures
        resolutions@.len() == 2,
        resolutions@[0].width == 640 && resolutions@[0].height == 480,
        resolutions@[1].width == 320 && resolutions@[1].height == 240,
        forall|j: int|
            0 <= j < 2 ==> (#[trigger] resolutions@[j]).framerates@ == seq![
                FrameRate { numerator: 1, denominator: 30 },
                FrameRate { numerator: 1, denominator: 15 },
            ],
{
    let mut resolutions: Vec<ResolutionInfo> = Vec::new();
    resolutions.push(ResolutionInfo { width: 640, height: 480, framerates: default_framerates() });
    resolutions.push(ResolutionInfo { width: 320, height: 240, framerates: default_framerates() });
    resolutions
}

impl Ranked for ResolutionInfo {
    /// Larger frames rank first.
    open spec fn rank(&self) -> (int, int) {
        (u64::MAX - self.width * self.height, 0)
    }

    fn rank_of(&self) -> (r: (u64, u64)) {
        assert(self.width * self.height <= 0xffff_ffff * 0xffff_ffff) by (nonlinear_arith)
            requires
                0 <= self.width <= 0xffff_ffff,
                0 <= self.height <= 0xffff_ffff,
        ;
        let area: u64 = self.width as u64 * self.height as u64;
        (u64::MAX - area, 0)
    }
}

/// Puts together what was learnt of a camera. The sizes are listed
/// largest frame first, sizes of equal area in the order they were found,
/// and none twice that was found once.
/// Where none was found the default sizes stand in, and the result is
/// marked incomplete.
pub fn assemble_capabilities(
    formats: Vec<FormatInfo>,
    resolutions: Vec<ResolutionInfo>,
    current: CurrentVideoSettings,
    complete: bool,
) -> (caps: CameraCapabilities)
    ensures
        caps.formats == formats,
        caps.current == current,
        distinct_sizes(resolutions@) ==> distinct_sizes(caps.resolutions@),
        resolutions@.len() > 0 ==> caps.resolutions@ == stable_sorted(resolutions@) && caps.complete
            == complete,
        resolutions@.len() == 0 ==> !caps.complete && caps.resolutions@.len() == 2
            && caps.resolutions@[0].width == 640 && caps.resolutions@[0].height == 480
            && caps.resolutions@[1].width == 320 && caps.resolutions@[1].height == 240 && forall|
            j: int,
        |
            0 <= j < 2 ==> (#[trigger] caps.resolutions@[j]).framerates@ == seq![
                FrameRate { numerator: 1, denominator: 30 },
                FrameRate { numerator: 1, denominator: 15 },
            ],
{
    if resolutions.len() == 0 {
        CameraCapabilities { formats, resolutions: default_resolutions(), current, complete: false }
    } else {
        proof {
            if distinct_sizes(resolutions@) {
                lemma_sorted_sizes_distinct(resolutions@);
            }
        }
        CameraCapabilities { formats, resolutions: sort_stable(resolutions), current, complete }
    }
}

} // verus!
