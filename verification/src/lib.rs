//! Univariate linear regression by batch gradient descent, computed in
//! saturating fixed-point arithmetic so that every step of the fit is
//! verified: feature scaling, the training loop, the cost diagnostic, and
//! prediction.

pub mod fixed;
pub mod regression;
