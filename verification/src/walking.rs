//! Catching mode of the walking engine, reduced to the part that is
//! plain data flow: turning the planned step into motor commands with
//! the configured stiffnesses.  Joint angles are carried as the
//! fixed-point values the hardware interface quantizes them to, and
//! stiffness as a per-mille weight.

use vstd::prelude::*;

verus! {

/// One joint command: the target position and the stiffness the motor
/// holds it with.
pub struct MotorCommand {
    pub position: i32,
    pub stiffness_per_mille: u16,
}

/// The planned step the catching mode is executing: target positions for
/// the leg chain and the arm chain.
pub struct StepState {
    pub planned_leg_positions: Vec<i32>,
    pub planned_arm_positions: Vec<i32>,
}

/// The stiffness configuration the walking engine applies in this mode.
pub struct WalkingEngineParameters {
    pub leg_stiffness_walk_per_mille: u16,
    pub arm_stiffness_per_mille: u16,
}

/// The walking engine's catching mode: one planned balancing step.
pub struct Catching {
    pub step: StepState,
}

impl Catching {
    pub fn new(step: StepState) -> (r: Catching)
        ensures
            r.step.planned_leg_positions@ == step.planned_leg_positions@,
            r.step.planned_arm_positions@ == step.planned_arm_positions@,
    {
        Catching { step }
    }

    /// The motor commands of the planned step: every leg joint keeps its
    /// planned position under the walking leg stiffness, followed by
    /// every arm joint under the arm stiffness, in order.
    pub fn compute_commands(&self, parameters: &WalkingEngineParameters) -> (commands: Vec<
        MotorCommand,
    >)
        ensures
            commands@.len() == self.step.planned_leg_positions@.len()
                + self.step.planned_arm_positions@.len(),
            forall|i: int|
                0 <= i < self.step.planned_leg_positions@.len() ==> {
                    let c = #[trigger] commands@[i];
                    c.position == self.step.planned_leg_positions@[i] && c.stiffness_per_mille
                        == parameters.leg_stiffness_walk_per_mille
                },
            forall|i: int|
                self.step.planned_leg_positions@.len() <= i < commands@.len() ==> {
                    let c = #[trigger] commands@[i];
                    c.position == self.step.planned_arm_positions@[i
                        - self.step.planned_leg_positions@.len()] && c.stiffness_per_mille
                        == parameters.arm_stiffness_per_mille
                },
    {
        let leg_count = self.step.planned_leg_positions.len();
        let arm_count = self.step.planned_arm_positions.len();
        let mut commands: Vec<MotorCommand> = Vec::new();
        let mut i: usize = 0;
        while i < leg_count
            invariant
                i <= leg_count,
                leg_count == self.step.planned_leg_positions@.len(),
                commands@.len() == i,
                forall|j: int|
                    0 <= j < i ==> {
                        let c = #[trigger] commands@[j];
                        c.position == self.step.planned_leg_positions@[j] && c.stiffness_per_mille
                            == parameters.leg_stiffness_walk_per_mille
                    },
            decreases leg_count - i,
        {
            commands.push(
                MotorCommand {
                    position: self.step.planned_leg_positions[i],
                    stiffness_per_mille: parameters.leg_stiffness_walk_per_mille,
                },
            );
            i = i + 1;
        }
        let mut j: usize = 0;
        while j < arm_count
            invariant
                j <= arm_count,
                leg_count == self.step.planned_leg_positions@.len(),
                arm_count == self.step.planned_arm_positions@.len(),
                commands@.len() == leg_count + j,
                forall|k: int|
                    0 <= k < leg_count ==> {
                        let c = #[trigger] commands@[k];
                        c.position == self.step.planned_leg_positions@[k] && c.stiffness_per_mille
                            == parameters.leg_stiffness_walk_per_mille
                    },
                forall|k: int|
                    leg_count <= k < leg_count + j ==> {
                        let c = #[trigger] commands@[k];
                        c.position == self.step.planned_arm_positions@[k - leg_count]
                            && c.stiffness_per_mille == parameters.arm_stiffness_per_mille
                    },
            decreases arm_count - j,
        {
            commands.push(
                MotorCommand {
                    position: self.step.planned_arm_positions[j],
                    stiffness_per_mille: parameters.arm_stiffness_per_mille,
                },
            );
            j = j + 1;
        }
        commands
    }
}

} // verus!
