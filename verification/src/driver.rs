//! The per-frame state: the current settings and the tree grown from them.

use vstd::prelude::*;
use crate::config::Config;
use crate::config::ConfigError;
use crate::render::Stroke;
use crate::render::lines;
use crate::render::views;
use crate::shape::Shape;
use crate::shape::full_tree;
use crate::tree::Tree;

verus! {

/// Settings in force and the tree of the frame in flight.
pub struct MainState {
    tree: Tree,
    iters: usize,
    branches_per_iter: usize,
}

impl MainState {
    /// The tree currently held.
    pub closed spec fn tree_shape(self) -> Shape {
        self.tree@
    }

    /// The settings the next tree will be grown from.
    pub closed spec fn settings(self) -> Config {
        Config { iterations: self.iters, branches_per_iteration: self.branches_per_iter }
    }

    /// The settings in force can drive a tree.
    pub open spec fn well_formed(self) -> bool {
        self.settings().valid()
    }

    /// The generation that is drawn at full intensity: the number of
    /// iterations, or 1 where the tree is a bare root.
    pub open spec fn brightest(self) -> nat {
        if self.settings().iterations == 0 {
            1
        } else {
            self.settings().iterations as nat
        }
    }

    /// Starts from `config` with its tree already grown. Settings with fewer
    /// than two branches are turned down.
    pub fn new(config: Config) -> (result: Result<MainState, ConfigError>)
        ensures
            config.valid() <==> result is Ok,
            !config.valid() ==> result == Err::<MainState, ConfigError>(
                ConfigError::DegenerateParameters,
            ),
            result is Ok ==> {
                &&& result->Ok_0.well_formed()
                &&& result->Ok_0.settings() == config
                &&& result->Ok_0.tree_shape() == full_tree(
                    config.branches_per_iteration as nat,
                    config.iterations as nat,
                    0,
                    0,
                )
            },
    {
        if config.branches_per_iteration < 2 {
            return Err(ConfigError::DegenerateParameters);
        }
        Ok(
            MainState {
                tree: Tree::build(config.iterations, config.branches_per_iteration),
                iters: config.iterations,
                branches_per_iter: config.branches_per_iteration,
            },
        )
    }

    /// Takes over new settings for the frames to come. The tree in flight is
    /// left as it is. Settings with fewer than two branches are turned down
    /// and change nothing.
    pub fn reload_config(&mut self, config: Config) -> (result: Result<(), ConfigError>)
        requires
            old(self).well_formed(),
        ensures
            final(self).well_formed(),
            final(self).tree_shape() == old(self).tree_shape(),
            config.valid() ==> result == Ok::<(), ConfigError>(()) && final(self).settings()
                == config,
            !config.valid() ==> result == Err::<(), ConfigError>(
                ConfigError::DegenerateParameters,
            ) && final(self).settings() == old(self).settings(),
    {
        if config.branches_per_iteration < 2 {
            return Err(ConfigError::DegenerateParameters);
        }
        self.iters = config.iterations;
        self.branches_per_iter = config.branches_per_iteration;
        Ok(())
    }

    /// Discards the tree and grows a new one from the settings in force.
    pub fn gen_tree(&mut self)
        requires
            old(self).well_formed(),
        ensures
            final(self).settings() == old(self).settings(),
            final(self).tree_shape() == full_tree(
                old(self).settings().branches_per_iteration as nat,
                old(self).settings().iterations as nat,
                0,
                0,
            ),
    {
        self.tree = Tree::build(self.iters, self.branches_per_iter);
    }

    /// One frame: the tree is rebuilt from the settings in force, whatever
    /// it was before.
    pub fn update(&mut self)
        requires
            old(self).well_formed(),
        ensures
            final(self).settings() == old(self).settings(),
            final(self).tree_shape() == full_tree(
                old(self).settings().branches_per_iteration as nat,
                old(self).settings().iterations as nat,
                0,
                0,
            ),
    {
        self.gen_tree();
    }

    /// The primitives of the tree in flight, with the deepest generation of
    /// the settings in force drawn at full intensity.
    pub fn draw(&self) -> (strokes: Vec<Stroke>)
        ensures
            views(strokes@) == lines(self.tree_shape(), None, 0, self.brightest()),
            strokes@.len() == self.tree_shape().size(),
    {
        let brightest: usize = if self.iters == 0 {
            1
        } else {
            self.iters
        };
        self.tree.draw(brightest)
    }

    /// The settings in force.
    pub fn config(&self) -> (config: Config)
        ensures
            config == self.settings(),
    {
        Config { iterations: self.iters, branches_per_iteration: self.branches_per_iter }
    }
}

} // verus!
