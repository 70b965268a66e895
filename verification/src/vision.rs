//! Biometric face verification profile.
use vstd::prelude::*;

verus! {

#[derive(Clone, Debug)]
pub struct FaceLandmarkProfile {
    pub is_matched: bool,
    pub confidence_percent: u8,
    pub identified_user: &'static str,
    pub facial_mesh_points: usize,
}

pub struct VisionEngine {
    pub is_camera_active: bool,
    pub active_profile: FaceLandmarkProfile,
}

impl VisionEngine {
    pub fn new() -> (r: Self)
        ensures
            r.is_camera_active,
            r.active_profile.is_matched,
            r.active_profile.confidence_percent == 99,
            r.active_profile.identified_user == "Atul (Primary Architect)",
            r.active_profile.facial_mesh_points == 68,
    {
        Self {
            is_camera_active: true,
            active_profile: FaceLandmarkProfile {
                is_matched: true,
                confidence_percent: 99,
                identified_user: "Atul (Primary Architect)",
                facial_mesh_points: 68,
            },
        }
    }

    /// The active profile, as the scan result.
    pub fn scan_and_verify_face(&mut self) -> (r: FaceLandmarkProfile)
        ensures
            r == old(self).active_profile,
            *final(self) == *old(self),
    {
        FaceLandmarkProfile {
            is_matched: self.active_profile.is_matched,
            confidence_percent: self.active_profile.confidence_percent,
            identified_user: self.active_profile.identified_user,
            facial_mesh_points: self.active_profile.facial_mesh_points,
        }
    }
}

} // verus!
