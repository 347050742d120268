//! The intuition engine: a consumer that samples the experience stream in
//! cycles. It holds a shared handle to the stream, which producers and
//! other consumers may hold as well.

use vstd::prelude::*;
use std::sync::Arc;
use crate::experience::ExperienceEvent;
use crate::sampling::SamplingStrategy;
use crate::experience_stream::ExperienceStream;

verus! {

#[derive(Clone, Copy, Debug, PartialEq, Eq, Structural)]
pub struct IntuitionConfig {
    /// The number of events asked for in one cycle.
    pub batch_size: usize,
    pub strategy: SamplingStrategy,
    /// The pause between two cycles, in milliseconds. The engine does not
    /// sleep; whoever drives it does.
    pub cycle_interval_ms: u64,
}

#[derive(Clone, Copy, Debug, PartialEq, Eq, Structural)]
pub enum BuildError {
    /// No experience stream was supplied.
    MissingExperience,
}

pub struct IntuitionEngineBuilder {
    experience: Option<Arc<ExperienceStream>>,
    config: IntuitionConfig,
}

pub struct IntuitionEngine {
    experience: Arc<ExperienceStream>,
    config: IntuitionConfig,
    cycles: u64,
}

/// The configuration of an engine built without one.
pub open spec fn default_config() -> IntuitionConfig {
    IntuitionConfig { batch_size: 32, strategy: SamplingStrategy::Uniform, cycle_interval_ms: 100 }
}

impl Default for IntuitionConfig {
    fn default() -> (c: IntuitionConfig)
        ensures
            c == default_config(),
    {
        IntuitionConfig {
            batch_size: 32,
            strategy: SamplingStrategy::Uniform,
            cycle_interval_ms: 100,
        }
    }
}

impl IntuitionEngineBuilder {
    pub closed spec fn has_experience(&self) -> bool {
        self.experience is Some
    }

    pub closed spec fn experience_spec(&self) -> ExperienceStream {
        *self.experience->Some_0
    }

    pub closed spec fn config_spec(&self) -> IntuitionConfig {
        self.config
    }

    /// A builder with the default configuration and no stream.
    pub fn new() -> (b: IntuitionEngineBuilder)
        ensures
            !b.has_experience(),
            b.config_spec() == default_config(),
    {
        IntuitionEngineBuilder { experience: None, config: IntuitionConfig::default() }
    }

    /// Supplies the stream to sample.
    pub fn with_experience(self, experience: Arc<ExperienceStream>) -> (b: IntuitionEngineBuilder)
        ensures
            b.has_experience(),
            b.experience_spec() == *experience,
            b.config_spec() == self.config_spec(),
    {
        IntuitionEngineBuilder { experience: Some(experience), config: self.config }
    }

    pub fn with_config(self, config: IntuitionConfig) -> (b: IntuitionEngineBuilder)
        ensures
            b.has_experience() == self.has_experience(),
            self.has_experience() ==> b.experience_spec() == self.experience_spec(),
            b.config_spec() == config,
    {
        IntuitionEngineBuilder { experience: self.experience, config }
    }

    /// Builds the engine. Without a stream there is no engine: the failure
    /// is reported here and not at the first cycle.
    pub fn build(self) -> (outcome: Result<IntuitionEngine, BuildError>)
        ensures
            self.has_experience() <==> outcome is Ok,
            outcome matches Err(e) ==> e == BuildError::MissingExperience,
            outcome matches Ok(engine) ==> engine.config_spec() == self.config_spec()
                && engine.experience_spec() == self.experience_spec() && engine.cycles_spec() == 0,
    {
        match self.experience {
            Some(experience) => Ok(IntuitionEngine { experience, config: self.config, cycles: 0 }),
            None => Err(BuildError::MissingExperience),
        }
    }
}

impl IntuitionEngine {
    pub closed spec fn experience_spec(&self) -> ExperienceStream {
        *self.experience
    }

    pub closed spec fn config_spec(&self) -> IntuitionConfig {
        self.config
    }

    /// The number of cycles run, saturating.
    pub closed spec fn cycles_spec(&self) -> nat {
        self.cycles as nat
    }

    pub fn builder() -> (b: IntuitionEngineBuilder)
        ensures
            !b.has_experience(),
            b.config_spec() == default_config(),
    {
        IntuitionEngineBuilder::new()
    }

    pub fn config(&self) -> (c: IntuitionConfig)
        ensures
            c == self.config_spec(),
    {
        self.config
    }

    pub fn cycles_run(&self) -> (n: u64)
        ensures
            n == self.cycles_spec(),
    {
        self.cycles
    }

    /// Runs one cycle: samples one batch from the stream, by the configured
    /// size and strategy, for the pattern analysis that follows. A stream
    /// with nothing to offer gives an empty batch; the cycle is counted all
    /// the same and nothing is retried.
    pub fn run_cycle(&mut self) -> (batch: Vec<ExperienceEvent>)
        ensures
            batch@.len() <= old(self).config_spec().batch_size,
            batch@.len() <= old(self).experience_spec().window_size_spec(),
            batch@.len() <= old(self).experience_spec().capacity_spec(),
            final(self).config_spec() == old(self).config_spec(),
            final(self).experience_spec() == old(self).experience_spec(),
            final(self).cycles_spec() == (if old(self).cycles_spec() < u64::MAX {
                old(self).cycles_spec() + 1
            } else {
                old(self).cycles_spec()
            }),
    {
        self.cycles = self.cycles.saturating_add(1);
        self.experience.sample_batch(self.config.batch_size, self.config.strategy)
    }
}

} // verus!
